//! Participant and channel registries: concurrent maps from participant id
//! to participant record and from channel name to channel record.
//!
//! The maps themselves are `dashmap::DashMap`s. Verified code reaches them
//! only through the trusted wrappers below, whose contracts speak of the
//! uninterpreted contents maps `users_of` and `channels_of`. Every mutating
//! wrapper takes the table exclusively (`&mut`), which is what makes the
//! stated contents transitions sound.

use vstd::prelude::*;

verus! {

/// dashmap's sharded concurrent hash map, declared so its values can stand
/// in signatures and fields.
#[verifier::external_type_specification]
#[verifier::external_body]
#[verifier::reject_recursive_types(K)]
#[verifier::reject_recursive_types(V)]
#[verifier::reject_recursive_types(S)]
pub struct ExDashMap<K, V, S>(dashmap::DashMap<K, V, S>);

/// One accepted connection's record: identity, registration state and the
/// single channel back-pointer. The connection's write side lives with the
/// session, outside this library.
#[derive(Clone, Debug)]
pub struct User {
    /// Opaque globally-unique identifier, assigned at accept, immutable.
    pub id: u128,
    /// Remote address string, captured at accept, immutable.
    pub address: String,
    /// Optional display handle; unique across participants when set.
    pub nickname: Option<String>,
    /// Optional login handle; need not be unique.
    pub username: Option<String>,
    /// True once both handles are set and the welcome reply was sent.
    pub is_registered: bool,
    /// Toggled by the away command.
    pub is_away: bool,
    /// Name of the one channel the participant has joined, if any.
    pub channel: Option<String>,
}

/// The mathematical shape of a participant record.
pub ghost struct UserView {
    pub id: u128,
    pub address: Seq<char>,
    pub nickname: Option<Seq<char>>,
    pub username: Option<Seq<char>>,
    pub is_registered: bool,
    pub is_away: bool,
    pub channel: Option<Seq<char>>,
}

impl View for User {
    type V = UserView;

    open spec fn view(&self) -> UserView {
        UserView {
            id: self.id,
            address: self.address@,
            nickname: match self.nickname {
                Some(n) => Some(n@),
                None => None,
            },
            username: match self.username {
                Some(n) => Some(n@),
                None => None,
            },
            is_registered: self.is_registered,
            is_away: self.is_away,
            channel: match self.channel {
                Some(c) => Some(c@),
                None => None,
            },
        }
    }
}

/// A chat room; membership is derived from participant back-pointers, so
/// the record is just the immutable name.
#[derive(Clone, Debug)]
pub struct Channel {
    /// The channel's name, unique, immutable after creation.
    pub name: String,
}

impl Channel {
    /// A channel record for the given name.
    pub fn new(name: &str) -> (c: Channel)
        ensures
            c@.name == name@,
    {
        Channel { name: name.to_owned() }
    }
}

/// The mathematical shape of a channel record.
pub ghost struct ChannelView {
    pub name: Seq<char>,
}

impl View for Channel {
    type V = ChannelView;

    open spec fn view(&self) -> ChannelView {
        ChannelView { name: self.name@ }
    }
}

/// The participant registry.
pub type UserTable = dashmap::DashMap<u128, User>;

/// The channel registry.
pub type ChannelTable = dashmap::DashMap<String, Channel>;

/// What the participant registry holds, keyed by participant id.
pub uninterp spec fn users_of(t: UserTable) -> Map<u128, UserView>;

/// What the channel registry holds, keyed by channel name.
pub uninterp spec fn channels_of(t: ChannelTable) -> Map<Seq<char>, ChannelView>;

/// Relies on dashmap::DashMap::insert: the entry for the key is set to the
/// given value and all others are untouched.
#[verifier::external_body]
fn dm_users_insert(t: &mut UserTable, id: u128, u: User)
    ensures
        users_of(*final(t)) == users_of(*old(t)).insert(id, u@),
{
    t.insert(id, u);
}

/// Relies on dashmap::DashMap::get: the value currently associated with the
/// key, if any; the caller receives a clone of the record.
#[verifier::external_body]
fn dm_users_get(t: &UserTable, id: u128) -> (r: Option<User>)
    ensures
        match r {
            Some(u) => users_of(*t).dom().contains(id) && u@ == users_of(*t)[id],
            None => !users_of(*t).dom().contains(id),
        },
{
    t.get(&id).map(|entry| entry.value().clone())
}

/// Relies on dashmap::DashMap::remove: the entry for the key is gone and
/// all others are untouched.
#[verifier::external_body]
fn dm_users_remove(t: &mut UserTable, id: u128)
    ensures
        users_of(*final(t)) == users_of(*old(t)).remove(id),
{
    t.remove(&id);
}

/// Whether a snapshot lists exactly the entries of a contents map, each key
/// once, in some order.
pub open spec fn user_entries_match(es: Seq<(u128, User)>, m: Map<u128, UserView>) -> bool {
    &&& m.dom().finite()
    &&& forall|i: int|
        0 <= i < es.len() ==> m.dom().contains(#[trigger] es[i].0) && es[i].1@ == m[es[i].0]
    &&& forall|i: int, j: int| 0 <= i < j < es.len() ==> es[i].0 != es[j].0
    &&& forall|k: u128| m.dom().contains(k) ==> exists|i: int| 0 <= i < es.len() && #[trigger] es[i].0 == k
}

/// Relies on dashmap::DashMap::iter: with the table held exclusively, the
/// iteration yields every entry exactly once, in unspecified order.
#[verifier::external_body]
pub(crate) fn dm_users_entries(t: &UserTable) -> (r: Vec<(u128, User)>)
    ensures
        user_entries_match(r@, users_of(*t)),
{
    let mut v = Vec::new();
    for entry in t.iter() {
        v.push((*entry.key(), entry.value().clone()));
    }
    v
}

/// Relies on dashmap::DashMap::get: the value currently associated with the
/// name, if any; the caller receives a clone of the record.
#[verifier::external_body]
fn dm_channels_get(t: &ChannelTable, name: &str) -> (r: Option<Channel>)
    ensures
        match r {
            Some(c) => channels_of(*t).dom().contains(name@) && c@ == channels_of(*t)[name@],
            None => !channels_of(*t).dom().contains(name@),
        },
{
    t.get(name).map(|entry| entry.value().clone())
}

/// Relies on dashmap::DashMap::entry with Entry::or_insert: an atomic
/// entry-or-insert, creating the record exactly once; an existing entry is
/// left as it is.
#[verifier::external_body]
fn dm_channels_insert_if_absent(t: &mut ChannelTable, name: &str)
    ensures
        channels_of(*final(t)) == (if channels_of(*old(t)).dom().contains(name@) {
            channels_of(*old(t))
        } else {
            channels_of(*old(t)).insert(name@, ChannelView { name: name@ })
        }),
{
    t.entry(name.to_owned()).or_insert(Channel { name: name.to_owned() });
}

/// Whether a snapshot lists exactly the entries of a channel contents map.
pub open spec fn channel_entries_match(
    es: Seq<(String, Channel)>,
    m: Map<Seq<char>, ChannelView>,
) -> bool {
    &&& m.dom().finite()
    &&& forall|i: int|
        0 <= i < es.len() ==> m.dom().contains(#[trigger] es[i].0@) && es[i].1@ == m[es[i].0@]
    &&& forall|i: int, j: int| 0 <= i < j < es.len() ==> es[i].0@ != es[j].0@
    &&& forall|k: Seq<char>|
        m.dom().contains(k) ==> exists|i: int| 0 <= i < es.len() && #[trigger] es[i].0@ == k
}

/// Relies on dashmap::DashMap::iter: with the table held exclusively, the
/// iteration yields every entry exactly once, in unspecified order.
#[verifier::external_body]
pub(crate) fn dm_channels_entries(t: &ChannelTable) -> (r: Vec<(String, Channel)>)
    ensures
        channel_entries_match(r@, channels_of(*t)),
{
    let mut v = Vec::new();
    for entry in t.iter() {
        v.push((entry.key().clone(), entry.value().clone()));
    }
    v
}

/// Relies on uuid::Uuid::new_v4 and Uuid::as_u128: a freshly drawn random
/// identifier. Nothing is promised of the value.
#[verifier::external_body]
fn fresh_id() -> u128 {
    uuid::Uuid::new_v4().as_u128()
}

/// The record a participant starts with: no handles, not registered, not
/// away, in no channel.
pub open spec fn spec_new_user(id: u128, address: Seq<char>) -> UserView {
    UserView {
        id,
        address,
        nickname: None,
        username: None,
        is_registered: false,
        is_away: false,
        channel: None,
    }
}

impl User {
    /// A fresh participant record with a randomly drawn identifier.
    pub fn new(address: &str) -> (u: User)
        ensures
            u@ == spec_new_user(u@.id, address@),
    {
        User {
            id: fresh_id(),
            address: address.to_owned(),
            nickname: None,
            username: None,
            is_registered: false,
            is_away: false,
            channel: None,
        }
    }
}

/// Look up one participant record; the caller receives a copy.
pub fn get_user(users: &UserTable, id: u128) -> (r: Option<User>)
    ensures
        match r {
            Some(u) => users_of(*users).dom().contains(id) && u@ == users_of(*users)[id],
            None => !users_of(*users).dom().contains(id),
        },
{
    dm_users_get(users, id)
}

/// Store one participant record under its id, replacing any previous one.
pub fn put_user(users: &mut UserTable, id: u128, u: User)
    ensures
        users_of(*final(users)) == users_of(*old(users)).insert(id, u@),
{
    dm_users_insert(users, id, u)
}

/// Accept a connection: insert a fresh participant record and hand back its
/// id.
pub fn accept_participant(users: &mut UserTable, address: &str) -> (id: u128)
    ensures
        users_of(*final(users)) == users_of(*old(users)).insert(
            id,
            spec_new_user(id, address@),
        ),
{
    let u = User::new(address);
    let id = u.id;
    dm_users_insert(users, id, u);
    id
}

/// Terminate a session: drop the participant's record. Channels persist.
pub fn remove_participant(users: &mut UserTable, id: u128)
    ensures
        users_of(*final(users)) == users_of(*old(users)).remove(id),
{
    dm_users_remove(users, id)
}

/// The canonical participant prefix `nick!user@addr`, defined once both
/// handles are set.
pub open spec fn spec_user_prefix(u: UserView) -> Option<Seq<char>> {
    match (u.nickname, u.username) {
        (Some(n), Some(un)) => Some(n + seq!['!'] + un + seq!['@'] + u.address),
        _ => None,
    }
}

impl User {
    /// The participant's source prefix for broadcast lines, or `None` while
    /// either handle is still unset.
    pub fn prefix(&self) -> (r: Option<String>)
        ensures
            (match r {
                Some(p) => Some(p@),
                None => None,
            }) == spec_user_prefix(self@),
    {
        match (&self.nickname, &self.username) {
            (Some(n), Some(un)) => {
                let mut p = n.clone();
                proof {
                    reveal_strlit("!");
                    reveal_strlit("@");
                    assert("!"@ =~= seq!['!']);
                    assert("@"@ =~= seq!['@']);
                }
                p.append("!");
                p.append(un.as_str());
                p.append("@");
                p.append(self.address.as_str());
                Some(p)
            },
            _ => None,
        }
    }
}

/// The ids of the participants currently in a channel.
pub open spec fn spec_members(m: Map<u128, UserView>, chan: Seq<char>) -> Set<u128> {
    m.dom().filter(|id: u128| m[id].channel == Some(chan))
}

/// Whether some participant currently holds this nickname.
pub open spec fn spec_nick_used(m: Map<u128, UserView>, nick: Seq<char>) -> bool {
    exists|id: u128| #[trigger] m.dom().contains(id) && m[id].nickname == Some(nick)
}

/// Whether a channel with this name exists.
pub fn channel_exists(channels: &ChannelTable, name: &str) -> (r: bool)
    ensures
        r == channels_of(*channels).dom().contains(name@),
{
    match dm_channels_get(channels, name) {
        Some(_) => true,
        None => false,
    }
}

/// Resolve a channel lazily: create it on first join, atomically.
pub fn ensure_channel(channels: &mut ChannelTable, name: &str)
    ensures
        channels_of(*final(channels)) == (if channels_of(*old(channels)).dom().contains(
            name@,
        ) {
            channels_of(*old(channels))
        } else {
            channels_of(*old(channels)).insert(name@, ChannelView { name: name@ })
        }),
{
    dm_channels_insert_if_absent(channels, name)
}

/// Linear scan: is the nickname held by any participant?
pub fn nickname_in_use(nickname: &str, users: &UserTable) -> (r: bool)
    ensures
        r == spec_nick_used(users_of(*users), nickname@),
{
    let es = dm_users_entries(users);
    let n = es.len();
    let ghost m = users_of(*users);
    let mut i: usize = 0;
    while i < n
        invariant
            n == es@.len(),
            0 <= i <= n,
            user_entries_match(es@, m),
            m == users_of(*users),
            forall|j: int| 0 <= j < i ==> (#[trigger] es@[j].1)@.nickname != Some(nickname@),
        decreases n - i,
    {
        match &es[i].1.nickname {
            Some(nm) => {
                if crate::codec::str_eq(nm.as_str(), nickname) {
                    assert(m.dom().contains(es@[i as int].0));
                    return true;
                }
            },
            None => {},
        }
        i += 1;
    }
    proof {
        if spec_nick_used(m, nickname@) {
            let id = choose|id: u128| #[trigger] m.dom().contains(id) && m[id].nickname == Some(
                nickname@,
            );
            let j = choose|j: int| 0 <= j < es@.len() && #[trigger] es@[j].0 == id;
            assert(es@[j].1@.nickname == Some(nickname@));
        }
    }
    false
}

/// Linear scan: the id of the participant holding the nickname, if any.
pub fn get_nickname_id(nickname: &str, users: &UserTable) -> (r: Option<u128>)
    ensures
        match r {
            Some(id) => users_of(*users).dom().contains(id) && users_of(*users)[id].nickname
                == Some(nickname@),
            None => !spec_nick_used(users_of(*users), nickname@),
        },
{
    let es = dm_users_entries(users);
    let n = es.len();
    let ghost m = users_of(*users);
    let mut i: usize = 0;
    while i < n
        invariant
            n == es@.len(),
            0 <= i <= n,
            user_entries_match(es@, m),
            m == users_of(*users),
            forall|j: int| 0 <= j < i ==> (#[trigger] es@[j].1)@.nickname != Some(nickname@),
        decreases n - i,
    {
        match &es[i].1.nickname {
            Some(nm) => {
                if crate::codec::str_eq(nm.as_str(), nickname) {
                    assert(m.dom().contains(es@[i as int].0));
                    return Some(es[i].0);
                }
            },
            None => {},
        }
        i += 1;
    }
    proof {
        if spec_nick_used(m, nickname@) {
            let id = choose|id: u128| #[trigger] m.dom().contains(id) && m[id].nickname == Some(
                nickname@,
            );
            let j = choose|j: int| 0 <= j < es@.len() && #[trigger] es@[j].0 == id;
            assert(es@[j].1@.nickname == Some(nickname@));
        }
    }
    None
}

} // verus!
