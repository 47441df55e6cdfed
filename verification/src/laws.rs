//! Laws of the cache's update protocol, stated over the spec transitions
//! that the executable operations are proved to follow.

use vstd::prelude::*;

use crate::cache::{attach_guild, channels_apply, user_store_upsert, user_store_remove_guild,
    voice_apply, voice_states_apply, CacheState, cached_of_guild, emojis_apply,
    emoji_purge_apply, emoji_id_list, guild_apply, index_add, index_remove, members_apply,
    presences_apply, roles_apply};
use crate::config::{Config, ResourceType, RESOURCE_CHANNEL, RESOURCE_EMOJI, RESOURCE_MEMBER,
    RESOURCE_PRESENCE, RESOURCE_ROLE, RESOURCE_VOICE_STATE};
use crate::model::{Emoji, Guild, GuildChannel, Member, Role, User, VoiceState};

verus! {

/// Replacing a guild's channel list attaches the guild's id to every
/// channel of the list: after the bulk store, each listed channel is
/// present and carries the guild's id, whether or not it arrived with one.
pub proof fn lemma_channels_carry_guild_id(
    st: CacheState,
    guild_id: u64,
    list: Seq<GuildChannel>,
    i: int,
)
    requires
        0 <= i < list.len(),
    ensures
        ({
            let fin = channels_apply(st, guild_id, list, list.len() as int);
            &&& fin.channels_guild.contains_key(list[i].id)
            &&& fin.channels_guild[list[i].id].data.guild_id == Some(guild_id)
        }),
{
    lemma_channels_prefix_carry(st, guild_id, list, list.len() as int, i);
}

proof fn lemma_channels_prefix_carry(
    st: CacheState,
    guild_id: u64,
    list: Seq<GuildChannel>,
    n: int,
    i: int,
)
    requires
        0 <= i < n <= list.len(),
    ensures
        ({
            let fin = channels_apply(st, guild_id, list, n);
            &&& fin.channels_guild.contains_key(list[i].id)
            &&& fin.channels_guild[list[i].id].data.guild_id == Some(guild_id)
        }),
    decreases n,
{
    let prev = channels_apply(st, guild_id, list, n - 1);
    let c = list[n - 1];
    let attached = attach_guild(c, guild_id);
    if i == n - 1 {
        if prev.channels_guild.contains_key(c.id) && prev.channels_guild[c.id].data.eq_val(
            &attached,
        ) {
            assert(prev.channels_guild[c.id].data.guild_id == attached.guild_id);
        }
    } else {
        lemma_channels_prefix_carry(st, guild_id, list, n - 1, i);
        if list[i].id == c.id {
            if prev.channels_guild.contains_key(c.id) && prev.channels_guild[c.id].data.eq_val(
                &attached,
            ) {
            }
        }
    }
}

/// A user cached under guild A and then under guild B is reachable through
/// exactly those two guilds; removing B leaves A alone; removing A evicts
/// the user record entirely.
pub proof fn lemma_user_guild_lifecycle(
    us0: Map<u64, (User, Set<u64>)>,
    user: User,
    a: u64,
    b: u64,
)
    requires
        !us0.contains_key(user.id),
        a != b,
    ensures
        ({
            let us1 = user_store_upsert(us0, user, Some(a));
            let us2 = user_store_upsert(us1, user, Some(b));
            let us3 = user_store_remove_guild(us2, user.id, b);
            let us4 = user_store_remove_guild(us3, user.id, a);
            &&& us2.contains_key(user.id)
            &&& us2[user.id].1 == Set::<u64>::empty().insert(a).insert(b)
            &&& us3.contains_key(user.id)
            &&& us3[user.id].1 == Set::<u64>::empty().insert(a)
            &&& !us4.contains_key(user.id)
        }),
{
    let us1 = user_store_upsert(us0, user, Some(a));
    assert(us1[user.id].1 == Set::<u64>::empty().insert(a));
    let us2 = user_store_upsert(us1, user, Some(b));
    assert(us2[user.id].1 == Set::<u64>::empty().insert(a).insert(b));
    let us3 = user_store_remove_guild(us2, user.id, b);
    assert(Set::<u64>::empty().insert(a).insert(b).remove(b) =~= Set::<u64>::empty().insert(a));
    assert(Set::<u64>::empty().insert(a).contains(a));
    assert(Set::<u64>::empty().insert(a) != Set::<u64>::empty());
    assert(us3[user.id].1 == Set::<u64>::empty().insert(a));
    let us4 = user_store_remove_guild(us3, user.id, a);
    assert(Set::<u64>::empty().insert(a).remove(a) =~= Set::<u64>::empty());
}

/// Voice-state updates are idempotent: applying the same (guild, user,
/// channel) update twice leaves exactly the state that applying it once
/// leaves, and a disconnect after a connect removes the entry.
pub proof fn lemma_voice_idempotent(st: CacheState, guild_id: u64, user_id: u64, channel_id: u64)
    ensures
        ({
            let connect = VoiceState {
                guild_id: Some(guild_id),
                channel_id: Some(channel_id),
                user_id,
            };
            let disconnect = VoiceState {
                guild_id: Some(guild_id),
                channel_id: None,
                user_id,
            };
            let once = voice_apply(st, connect);
            &&& voice_apply(once, connect) == once
            &&& once.voice_states == st.voice_states.insert((guild_id, user_id), channel_id)
            &&& voice_apply(once, disconnect).voice_states == st.voice_states.remove(
                (guild_id, user_id),
            )
        }),
{
    let connect = VoiceState { guild_id: Some(guild_id), channel_id: Some(channel_id), user_id };
    let disconnect = VoiceState { guild_id: Some(guild_id), channel_id: None, user_id };
    let once = voice_apply(st, connect);
    let twice = voice_apply(once, connect);
    assert(once.voice_states.insert((guild_id, user_id), channel_id) =~= once.voice_states);
    assert(twice.voice_states == once.voice_states);
    assert(twice =~= once);
    assert(voice_apply(once, disconnect).voice_states == once.voice_states.remove(
        (guild_id, user_id),
    ));
    assert(once.voice_states.remove((guild_id, user_id)) =~= st.voice_states.remove(
        (guild_id, user_id),
    ));
}


/// Whether one of the first `n` listed emojis carries this id.
pub open spec fn listed_id(list: Seq<Emoji>, n: int, x: u64) -> bool {
    exists|j: int| 0 <= j < n && (#[trigger] list[j]).id == x
}

proof fn lemma_emoji_id_list_contains(list: Seq<Emoji>)
    ensures
        forall|x: u64| #[trigger] emoji_id_list(list).contains(x) <==> listed_id(
            list,
            list.len() as int,
            x,
        ),
{
    let inc = emoji_id_list(list);
    assert forall|x: u64| #[trigger] inc.contains(x) implies listed_id(
        list,
        list.len() as int,
        x,
    ) by {
        let j = choose|j: int| 0 <= j < inc.len() && (#[trigger] inc[j]) == x;
        assert((list[j]).id == x);
    }
    assert forall|x: u64| listed_id(list, list.len() as int, x) implies #[trigger] inc.contains(
        x,
    ) by {
        let j = choose|j: int| 0 <= j < list.len() && (#[trigger] list[j]).id == x;
        assert(inc[j] == x);
    }
}

proof fn lemma_take_contains(ids: Seq<u64>, n: int)
    requires
        0 < n <= ids.len(),
    ensures
        forall|x: u64| ids.take(n).contains(x) <==> (ids.take(n - 1).contains(x) || x == ids[n
            - 1]),
{
    assert forall|x: u64| ids.take(n).contains(x) implies (ids.take(n - 1).contains(x) || x
        == ids[n - 1]) by {
        let j = choose|j: int| 0 <= j < n && (#[trigger] ids.take(n)[j]) == x;
        if j < n - 1 {
            assert(ids.take(n - 1)[j] == x);
        }
    }
    assert forall|x: u64| (ids.take(n - 1).contains(x) || x == ids[n - 1]) implies ids.take(
        n,
    ).contains(x) by {
        if x == ids[n - 1] {
            assert(ids.take(n)[n - 1] == x);
        } else {
            let j = choose|j: int| 0 <= j < n - 1 && (#[trigger] ids.take(n - 1)[j]) == x;
            assert(ids.take(n)[j] == x);
        }
    }
}

proof fn lemma_emoji_purge_effect(
    st: CacheState,
    g: u64,
    ids: Seq<u64>,
    inc: Seq<u64>,
    n: int,
)
    requires
        0 <= n <= ids.len(),
        ids.no_duplicates(),
        st.guild_emojis.contains_key(g) ==> (forall|x: u64| ids.contains(x)
            <==> st.guild_emojis[g].contains(x)),
        !st.guild_emojis.contains_key(g) ==> ids.len() == 0,
    ensures
        ({
            let p = emoji_purge_apply(st, g, ids, inc, n);
            &&& (p == CacheState { emojis: p.emojis, guild_emojis: p.guild_emojis, ..st })
            &&& (forall|d: u64| #[trigger] p.guild_emojis.contains_key(d)
                <==> st.guild_emojis.contains_key(d))
            &&& (forall|d: u64| d != g && st.guild_emojis.contains_key(d)
                ==> p.guild_emojis[d] == st.guild_emojis[d])
            &&& (st.guild_emojis.contains_key(g) ==> (forall|x: u64| #[trigger]
                p.guild_emojis[g].contains(x) <==> (st.guild_emojis[g].contains(x) && (
                inc.contains(x) || !ids.take(n).contains(x)))))
            &&& (forall|x: u64| #[trigger] p.emojis.contains_key(x) <==> (
                st.emojis.contains_key(x) && !(ids.take(n).contains(x) && !inc.contains(x))))
            &&& (forall|x: u64| #[trigger] p.emojis.contains_key(x) ==> p.emojis[x]
                == st.emojis[x])
        }),
    decreases n,
{
    if n == 0 {
        assert(ids.take(0) =~= Seq::<u64>::empty());
        assert(forall|x: u64| !ids.take(0).contains(x));
    } else {
        lemma_emoji_purge_effect(st, g, ids, inc, n - 1);
        lemma_take_contains(ids, n);
        let prev = emoji_purge_apply(st, g, ids, inc, n - 1);
        let p = emoji_purge_apply(st, g, ids, inc, n);
        let id = ids[n - 1];
        assert(ids.contains(id));
        if inc.contains(id) {
            assert(p == prev);
        } else {
            assert(p.emojis == prev.emojis.remove(id));
            assert(p.guild_emojis == index_remove(prev.guild_emojis, g, id));
        }
    }
}

proof fn lemma_emoji_fold_effect(q: CacheState, g: u64, list: Seq<Emoji>, n: int)
    requires
        0 <= n <= list.len(),
    ensures
        ({
            let a = emojis_apply(q, g, list, n);
            &&& (a == CacheState {
                emojis: a.emojis,
                guild_emojis: a.guild_emojis,
                users: a.users,
                ..q
            })
            &&& (a.guild_emojis.contains_key(g) <==> (q.guild_emojis.contains_key(g) || n > 0))
            &&& (forall|d: u64| d != g ==> ((#[trigger] a.guild_emojis.contains_key(d)
                <==> q.guild_emojis.contains_key(d)) && (q.guild_emojis.contains_key(d)
                ==> a.guild_emojis[d] == q.guild_emojis[d])))
            &&& (a.guild_emojis.contains_key(g) ==> (forall|x: u64| #[trigger]
                a.guild_emojis[g].contains(x) <==> ((q.guild_emojis.contains_key(g)
                && q.guild_emojis[g].contains(x)) || listed_id(list, n, x))))
            &&& (forall|x: u64| #[trigger] a.emojis.contains_key(x) <==> (
                q.emojis.contains_key(x) || listed_id(list, n, x)))
            &&& (forall|x: u64| #[trigger] a.emojis.contains_key(x) && !listed_id(list, n, x)
                ==> q.emojis.contains_key(x) && a.emojis[x] == q.emojis[x])
        }),
    decreases n,
{
    if n > 0 {
        lemma_emoji_fold_effect(q, g, list, n - 1);
        let prev = emojis_apply(q, g, list, n - 1);
        let a = emojis_apply(q, g, list, n);
        let e = list[n - 1];
        assert(forall|x: u64| listed_id(list, n - 1, x) ==> listed_id(list, n, x));
        assert(listed_id(list, n, e.id)) by {
            assert((list[n - 1]).id == e.id);
        }
        assert forall|x: u64| listed_id(list, n, x) && x != e.id implies listed_id(
            list,
            n - 1,
            x,
        ) by {
            let j = choose|j: int| 0 <= j < n && (#[trigger] list[j]).id == x;
            assert(j < n - 1);
        }
        // Whether or not the stored emoji already reflects the incoming
        // value, the id enters the guild's index.
        assert(a.guild_emojis == index_add(prev.guild_emojis, g, e.id));
        if prev.emojis.contains_key(e.id) && prev.emojis[e.id].data.matches(&e) {
            assert(a.emojis == prev.emojis);
        } else {
            assert(a.emojis == prev.emojis.insert(
                e.id,
                crate::cache::GuildItem { data: crate::cache::cached_of_emoji(e), guild_id: g },
            ));
        }
    } else {
        assert(forall|x: u64| !listed_id(list, 0, x));
    }
}

/// Replacing a guild's emoji collection is exact: afterwards the guild's
/// emoji index holds exactly the incoming ids, every incoming emoji is
/// reachable by id, and every id dropped from the list is unreachable.
pub proof fn lemma_emoji_replacement_exact(
    st: CacheState,
    g: u64,
    list: Seq<Emoji>,
    stale: Seq<u64>,
)
    requires
        stale.no_duplicates(),
        forall|x: u64| stale.contains(x) <==> (st.guild_emojis.contains_key(g)
            && st.guild_emojis[g].contains(x)),
    ensures
        ({
            let fin = emojis_apply(
                emoji_purge_apply(st, g, stale, emoji_id_list(list), stale.len() as int),
                g,
                list,
                list.len() as int,
            );
            &&& ((st.guild_emojis.contains_key(g) || list.len() > 0) ==> (
                fin.guild_emojis.contains_key(g) && (forall|x: u64| #[trigger]
                fin.guild_emojis[g].contains(x) <==> emoji_id_list(list).contains(x))))
            &&& (forall|x: u64| (st.guild_emojis.contains_key(g) && st.guild_emojis[
                g
            ].contains(x) && !emoji_id_list(list).contains(x)) ==> !(#[trigger]
                fin.emojis.contains_key(x)))
            &&& (forall|i: int| 0 <= i < list.len() ==> fin.emojis.contains_key(
                (#[trigger] list[i]).id,
            ))
        }),
{
    let inc = emoji_id_list(list);
    let nlen = stale.len() as int;
    lemma_emoji_id_list_contains(list);
    if !st.guild_emojis.contains_key(g) {
        if stale.len() > 0 {
            assert(stale.contains(stale[0]));
        }
    }
    lemma_emoji_purge_effect(st, g, stale, inc, nlen);
    let q = emoji_purge_apply(st, g, stale, inc, nlen);
    assert(stale.take(nlen) =~= stale);
    lemma_emoji_fold_effect(q, g, list, list.len() as int);
    let fin = emojis_apply(q, g, list, list.len() as int);
    if st.guild_emojis.contains_key(g) || list.len() > 0 {
        assert(fin.guild_emojis.contains_key(g));
        assert forall|x: u64| #[trigger] fin.guild_emojis[g].contains(x) implies inc.contains(
            x,
        ) by {
            if q.guild_emojis.contains_key(g) && q.guild_emojis[g].contains(x) {
                assert(st.guild_emojis[g].contains(x) && (inc.contains(x) || !stale.contains(x)));
                assert(stale.contains(x));
            } else {
                assert(listed_id(list, list.len() as int, x));
            }
        }
        assert forall|x: u64| inc.contains(x) implies #[trigger] fin.guild_emojis[g].contains(
            x,
        ) by {
            assert(listed_id(list, list.len() as int, x));
        }
    }
    assert forall|x: u64|
        (st.guild_emojis.contains_key(g) && st.guild_emojis[g].contains(x) && !inc.contains(
            x,
        )) implies !(#[trigger] fin.emojis.contains_key(x)) by {
        assert(stale.contains(x));
        assert(!q.emojis.contains_key(x));
        if listed_id(list, list.len() as int, x) {
            assert(inc.contains(x));
        }
    }
    assert forall|i: int| 0 <= i < list.len() implies fin.emojis.contains_key(
        (#[trigger] list[i]).id,
    ) by {
        assert(listed_id(list, list.len() as int, list[i].id));
    }
}


/// Whether one of the first `n` listed channels carries this id.
pub open spec fn listed_channel_id(list: Seq<GuildChannel>, n: int, x: u64) -> bool {
    exists|j: int| 0 <= j < n && (#[trigger] list[j]).id == x
}

/// Whether one of the first `n` listed roles carries this id.
pub open spec fn listed_role_id(list: Seq<Role>, n: int, x: u64) -> bool {
    exists|j: int| 0 <= j < n && (#[trigger] list[j]).id == x
}

/// Whether one of the first `n` listed members speaks of this user.
pub open spec fn listed_member_user(list: Seq<Member>, n: int, x: u64) -> bool {
    exists|j: int| 0 <= j < n && (#[trigger] list[j]).user.id == x
}

proof fn lemma_channel_fold_effect(q: CacheState, g: u64, list: Seq<GuildChannel>, n: int)
    requires
        0 <= n <= list.len(),
    ensures
        ({
            let a = channels_apply(q, g, list, n);
            &&& (a == CacheState {
                channels_guild: a.channels_guild,
                guild_channels: a.guild_channels,
                ..q
            })
            &&& (a.guild_channels.contains_key(g) <==> (q.guild_channels.contains_key(g) || n
                > 0))
            &&& (forall|d: u64| d != g ==> ((#[trigger] a.guild_channels.contains_key(d)
                <==> q.guild_channels.contains_key(d)) && (q.guild_channels.contains_key(d)
                ==> a.guild_channels[d] == q.guild_channels[d])))
            &&& (a.guild_channels.contains_key(g) ==> (forall|x: u64| #[trigger]
                a.guild_channels[g].contains(x) <==> ((q.guild_channels.contains_key(g)
                && q.guild_channels[g].contains(x)) || listed_channel_id(list, n, x))))
        }),
    decreases n,
{
    if n > 0 {
        lemma_channel_fold_effect(q, g, list, n - 1);
        let prev = channels_apply(q, g, list, n - 1);
        let a = channels_apply(q, g, list, n);
        let c = list[n - 1];
        assert(forall|x: u64| listed_channel_id(list, n - 1, x) ==> listed_channel_id(
            list,
            n,
            x,
        ));
        assert(listed_channel_id(list, n, c.id)) by {
            assert((list[n - 1]).id == c.id);
        }
        assert forall|x: u64| listed_channel_id(list, n, x) && x != c.id implies
            listed_channel_id(list, n - 1, x) by {
            let j = choose|j: int| 0 <= j < n && (#[trigger] list[j]).id == x;
            assert(j < n - 1);
        }
        assert(a.guild_channels == index_add(prev.guild_channels, g, c.id));
    } else {
        assert(forall|x: u64| !listed_channel_id(list, 0, x));
    }
}

proof fn lemma_role_fold_effect(q: CacheState, g: u64, list: Seq<Role>, n: int)
    requires
        0 <= n <= list.len(),
    ensures
        ({
            let a = roles_apply(q, g, list, n);
            &&& (a == CacheState { roles: a.roles, guild_roles: a.guild_roles, ..q })
            &&& (a.guild_roles.contains_key(g) <==> (q.guild_roles.contains_key(g) || n > 0))
            &&& (forall|d: u64| d != g ==> ((#[trigger] a.guild_roles.contains_key(d)
                <==> q.guild_roles.contains_key(d)) && (q.guild_roles.contains_key(d)
                ==> a.guild_roles[d] == q.guild_roles[d])))
            &&& (a.guild_roles.contains_key(g) ==> (forall|x: u64| #[trigger]
                a.guild_roles[g].contains(x) <==> ((q.guild_roles.contains_key(g)
                && q.guild_roles[g].contains(x)) || listed_role_id(list, n, x))))
        }),
    decreases n,
{
    if n > 0 {
        lemma_role_fold_effect(q, g, list, n - 1);
        let prev = roles_apply(q, g, list, n - 1);
        let a = roles_apply(q, g, list, n);
        let r = list[n - 1];
        assert(forall|x: u64| listed_role_id(list, n - 1, x) ==> listed_role_id(list, n, x));
        assert(listed_role_id(list, n, r.id)) by {
            assert((list[n - 1]).id == r.id);
        }
        assert forall|x: u64| listed_role_id(list, n, x) && x != r.id implies listed_role_id(
            list,
            n - 1,
            x,
        ) by {
            let j = choose|j: int| 0 <= j < n && (#[trigger] list[j]).id == x;
            assert(j < n - 1);
        }
        assert(a.guild_roles == index_add(prev.guild_roles, g, r.id));
    } else {
        assert(forall|x: u64| !listed_role_id(list, 0, x));
    }
}

proof fn lemma_member_fold_effect(q: CacheState, g: u64, list: Seq<Member>, n: int)
    requires
        0 <= n <= list.len(),
    ensures
        ({
            let a = members_apply(q, g, list, n);
            &&& (a == CacheState {
                members: a.members,
                guild_members: a.guild_members,
                users: a.users,
                ..q
            })
            &&& (a.guild_members.contains_key(g) <==> (q.guild_members.contains_key(g) || n
                > 0))
            &&& (forall|d: u64| d != g ==> ((#[trigger] a.guild_members.contains_key(d)
                <==> q.guild_members.contains_key(d)) && (q.guild_members.contains_key(d)
                ==> a.guild_members[d] == q.guild_members[d])))
            &&& (a.guild_members.contains_key(g) ==> (forall|x: u64| #[trigger]
                a.guild_members[g].contains(x) <==> ((q.guild_members.contains_key(g)
                && q.guild_members[g].contains(x)) || listed_member_user(list, n, x))))
        }),
    decreases n,
{
    if n > 0 {
        lemma_member_fold_effect(q, g, list, n - 1);
        let prev = members_apply(q, g, list, n - 1);
        let a = members_apply(q, g, list, n);
        let m = list[n - 1];
        assert(forall|x: u64| listed_member_user(list, n - 1, x) ==> listed_member_user(
            list,
            n,
            x,
        ));
        assert(listed_member_user(list, n, m.user.id)) by {
            assert((list[n - 1]).user.id == m.user.id);
        }
        assert forall|x: u64| listed_member_user(list, n, x) && x != m.user.id implies
            listed_member_user(list, n - 1, x) by {
            let j = choose|j: int| 0 <= j < n && (#[trigger] list[j]).user.id == x;
            assert(j < n - 1);
        }
        assert(a.guild_members == index_add(prev.guild_members, g, m.user.id));
    } else {
        assert(forall|x: u64| !listed_member_user(list, 0, x));
    }
}

proof fn lemma_voice_fold_frame(q: CacheState, list: Seq<VoiceState>, n: int)
    requires
        0 <= n <= list.len(),
    ensures
        ({
            let a = voice_states_apply(q, list, n);
            a == CacheState {
                voice_states: a.voice_states,
                voice_state_channels: a.voice_state_channels,
                voice_state_guilds: a.voice_state_guilds,
                ..q
            }
        }),
    decreases n,
{
    if n > 0 {
        lemma_voice_fold_frame(q, list, n - 1);
    }
}

/// A guild create rebuilds the guild's index sets to exactly its incoming
/// children, whether or not those children were already cached with equal
/// values: afterwards the channel, emoji, member and role indices hold
/// exactly the listed ids, the guild is no longer unavailable, and its
/// summary record is stored.
pub proof fn lemma_guild_create_rebuilds_indices(st: CacheState, config: Config, guild: Guild)
    requires
        config.resource_types.spec_contains(ResourceType { bits: RESOURCE_CHANNEL }),
        config.resource_types.spec_contains(ResourceType { bits: RESOURCE_EMOJI }),
        config.resource_types.spec_contains(ResourceType { bits: RESOURCE_MEMBER }),
        config.resource_types.spec_contains(ResourceType { bits: RESOURCE_ROLE }),
    ensures
        ({
            let fin = guild_apply(st, config, guild);
            &&& fin.guild_channels.contains_key(guild.id)
            &&& (forall|x: u64| #[trigger] fin.guild_channels[guild.id].contains(x)
                <==> listed_channel_id(guild.channels@, guild.channels@.len() as int, x))
            &&& fin.guild_emojis.contains_key(guild.id)
            &&& (forall|x: u64| #[trigger] fin.guild_emojis[guild.id].contains(x)
                <==> emoji_id_list(guild.emojis@).contains(x))
            &&& fin.guild_members.contains_key(guild.id)
            &&& (forall|x: u64| #[trigger] fin.guild_members[guild.id].contains(x)
                <==> listed_member_user(guild.members@, guild.members@.len() as int, x))
            &&& fin.guild_roles.contains_key(guild.id)
            &&& (forall|x: u64| #[trigger] fin.guild_roles[guild.id].contains(x)
                <==> listed_role_id(guild.roles@, guild.roles@.len() as int, x))
            &&& !fin.unavailable_guilds.contains(guild.id)
            &&& fin.guilds.contains_key(guild.id)
            &&& fin.guilds[guild.id] == cached_of_guild(guild)
        }),
{
    let g = guild.id;
    let fin = guild_apply(st, config, guild);
    lemma_emoji_id_list_contains(guild.emojis@);

    let q1 = CacheState { guild_channels: st.guild_channels.insert(g, Set::empty()), ..st };
    let st1 = channels_apply(q1, g, guild.channels@, guild.channels@.len() as int);
    lemma_channel_fold_effect(q1, g, guild.channels@, guild.channels@.len() as int);
    assert(st1.guild_channels.contains_key(g));
    assert(forall|x: u64| #[trigger] st1.guild_channels[g].contains(x) <==> listed_channel_id(
        guild.channels@,
        guild.channels@.len() as int,
        x,
    ));

    let q2 = CacheState { guild_emojis: st1.guild_emojis.insert(g, Set::empty()), ..st1 };
    let st2 = emojis_apply(q2, g, guild.emojis@, guild.emojis@.len() as int);
    lemma_emoji_fold_effect(q2, g, guild.emojis@, guild.emojis@.len() as int);
    assert(st2.guild_channels == st1.guild_channels);
    assert(st2.guild_emojis.contains_key(g));
    assert forall|x: u64| #[trigger] st2.guild_emojis[g].contains(x) implies emoji_id_list(
        guild.emojis@,
    ).contains(x) by {
        assert(listed_id(guild.emojis@, guild.emojis@.len() as int, x));
    }
    assert forall|x: u64| emoji_id_list(guild.emojis@).contains(x) implies #[trigger]
        st2.guild_emojis[g].contains(x) by {
        assert(listed_id(guild.emojis@, guild.emojis@.len() as int, x));
    }

    let q3 = CacheState { guild_members: st2.guild_members.insert(g, Set::empty()), ..st2 };
    let st3 = members_apply(q3, g, guild.members@, guild.members@.len() as int);
    lemma_member_fold_effect(q3, g, guild.members@, guild.members@.len() as int);
    assert(st3.guild_channels == st1.guild_channels);
    assert(st3.guild_emojis == st2.guild_emojis);
    assert(st3.guild_members.contains_key(g));
    assert(forall|x: u64| #[trigger] st3.guild_members[g].contains(x) <==> listed_member_user(
        guild.members@,
        guild.members@.len() as int,
        x,
    ));

    let st4 = if config.resource_types.spec_contains(ResourceType { bits: RESOURCE_PRESENCE }) {
        CacheState {
            guild_presences: presences_apply(
                st3.guild_presences.insert(g, Set::empty()),
                g,
                guild.presences@,
                guild.presences@.len() as int,
            ),
            ..st3
        }
    } else {
        st3
    };
    assert(st4.guild_channels == st3.guild_channels);
    assert(st4.guild_emojis == st3.guild_emojis);
    assert(st4.guild_members == st3.guild_members);
    assert(st4.guild_roles == st3.guild_roles);

    let q5 = CacheState { guild_roles: st4.guild_roles.insert(g, Set::empty()), ..st4 };
    let st5 = roles_apply(q5, g, guild.roles@, guild.roles@.len() as int);
    lemma_role_fold_effect(q5, g, guild.roles@, guild.roles@.len() as int);
    assert(st5.guild_channels == st1.guild_channels);
    assert(st5.guild_emojis == st2.guild_emojis);
    assert(st5.guild_members == st3.guild_members);
    assert(st5.guild_roles.contains_key(g));
    assert(forall|x: u64| #[trigger] st5.guild_roles[g].contains(x) <==> listed_role_id(
        guild.roles@,
        guild.roles@.len() as int,
        x,
    ));

    let st6 = if config.resource_types.spec_contains(ResourceType { bits: RESOURCE_VOICE_STATE }) {
        voice_states_apply(st5, guild.voice_states@, guild.voice_states@.len() as int)
    } else {
        st5
    };
    if config.resource_types.spec_contains(ResourceType { bits: RESOURCE_VOICE_STATE }) {
        lemma_voice_fold_frame(st5, guild.voice_states@, guild.voice_states@.len() as int);
    }
    assert(st6.guild_channels == st1.guild_channels);
    assert(st6.guild_emojis == st2.guild_emojis);
    assert(st6.guild_members == st3.guild_members);
    assert(st6.guild_roles == st5.guild_roles);

    assert(fin == (CacheState {
        unavailable_guilds: st6.unavailable_guilds.remove(g),
        guilds: st6.guilds.insert(g, cached_of_guild(guild)),
        ..st6
    }));
}

} // verus!
