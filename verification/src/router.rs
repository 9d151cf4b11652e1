//! Routing primitives: compute, from the participant registry, the exact
//! set of write operations a message causes. Four primitives cover one
//! recipient, a channel's membership, everyone but one, and everyone.
//!
//! The router only computes deliveries; performing the socket writes is the
//! session's business, outside this library.

use vstd::prelude::*;

use crate::codec::ToIrc;
use crate::codec::crlf;
use crate::codec::str_eq;
use crate::registry::Channel;
use crate::registry::UserTable;
use crate::registry::UserView;
use crate::registry::dm_users_entries;
use crate::registry::get_user;
use crate::registry::spec_members;
use crate::registry::user_entries_match;
use crate::registry::users_of;

verus! {

broadcast use vstd::set::group_set_axioms;

/// One computed outbound write: a CR-LF-terminated line for one recipient.
#[derive(Debug)]
pub struct Delivery {
    /// The recipient participant's id.
    pub target: u128,
    /// The complete line, terminator included.
    pub line: String,
}

/// The mathematical shape of a delivery.
pub ghost struct DeliveryView {
    pub target: u128,
    pub line: Seq<char>,
}

impl View for Delivery {
    type V = DeliveryView;

    open spec fn view(&self) -> DeliveryView {
        DeliveryView { target: self.target, line: self.line@ }
    }
}

/// The views of a list of deliveries.
pub open spec fn devs(ds: Seq<Delivery>) -> Seq<DeliveryView> {
    ds.map(|_i: int, d: Delivery| d@)
}

pub proof fn lemma_devs_push(ds: Seq<Delivery>, d: Delivery)
    ensures
        devs(ds.push(d)) =~= devs(ds).push(d@),
{
}

/// A fan-out: one line, delivered exactly once to every id of a target set,
/// in unspecified order.
pub open spec fn fanout_ok(ds: Seq<DeliveryView>, line: Seq<char>, targets: Set<u128>) -> bool {
    &&& ds.len() == targets.len()
    &&& forall|i: int|
        0 <= i < ds.len() ==> (#[trigger] ds[i]).line == line && targets.contains(ds[i].target)
    &&& forall|i: int, j: int| 0 <= i < j < ds.len() ==> ds[i].target != ds[j].target
}

/// The recipients a routing primitive selects: everyone, optionally
/// restricted to one channel's members, optionally excluding one id.
pub open spec fn sel_targets(
    m: Map<u128, UserView>,
    chan: Option<Seq<char>>,
    ex: Option<u128>,
) -> Set<u128> {
    m.dom().filter(
        |id: u128|
            (match chan {
                Some(c) => m[id].channel == Some(c),
                None => true,
            }) && (match ex {
                Some(e) => id != e,
                None => true,
            }),
    )
}

/// The view of an optional channel-name restriction.
pub open spec fn opt_name(chan: Option<&str>) -> Option<Seq<char>> {
    match chan {
        Some(c) => Some(c@),
        None => None,
    }
}

/// The keys among the first `i` snapshot entries.
pub open spec fn seen_keys(es: Seq<(u128, crate::registry::User)>, i: int) -> Set<u128> {
    Set::new(|k: u128| exists|j: int| 0 <= j < i && es[j].0 == k)
}

/// Walk the registry and build one delivery per selected recipient.
fn fanout_to<T: ToIrc>(
    message: &T,
    users: &UserTable,
    chan: Option<&str>,
    exclude: Option<u128>,
) -> (r: Vec<Delivery>)
    ensures
        message.wire_ok() ==> fanout_ok(
            devs(r@),
            message.irc_line() + crlf(),
            sel_targets(users_of(*users), opt_name(chan), exclude),
        ),
        !message.wire_ok() ==> r@.len() == 0,
{
    let line = match message.to_irc() {
        Ok(l) => l,
        Err(_) => {
            return Vec::new();
        },
    };
    let ghost m = users_of(*users);
    let ghost tset = sel_targets(m, opt_name(chan), exclude);
    let ghost lv = message.irc_line() + crlf();
    let es = dm_users_entries(users);
    let ghost esv = es@;
    proof {
        vstd::set_lib::lemma_len_subset(tset, m.dom());
        assert(seen_keys(esv, 0) =~= Set::<u128>::empty());
        assert(tset.intersect(seen_keys(esv, 0)) =~= Set::<u128>::empty());
    }
    let n = es.len();
    let mut r: Vec<Delivery> = Vec::new();
    let mut i: usize = 0;
    while i < n
        invariant
            n == esv.len(),
            0 <= i <= n,
            esv == es@,
            user_entries_match(esv, m),
            m == users_of(*users),
            tset == sel_targets(m, opt_name(chan), exclude),
            tset.finite(),
            lv == message.irc_line() + crlf(),
            line@ == lv,
            devs(r@).len() == tset.intersect(seen_keys(esv, i as int)).len(),
            forall|jj: int|
                0 <= jj < devs(r@).len() ==> (#[trigger] devs(r@)[jj]).line == lv
                    && tset.contains(devs(r@)[jj].target) && seen_keys(esv, i as int).contains(
                    devs(r@)[jj].target,
                ),
            forall|a: int, b: int|
                0 <= a < b < devs(r@).len() ==> devs(r@)[a].target != devs(r@)[b].target,
        decreases n - i,
    {
        let ghost k = esv[i as int].0;
        let ghost seen = seen_keys(esv, i as int);
        proof {
            assert(seen_keys(esv, i + 1 as int) =~= seen.insert(k));
            if seen.contains(k) {
                let j = choose|j: int| 0 <= j < i && esv[j].0 == k;
                assert(esv[j].0 == esv[i as int].0);
                assert(false);
            }
        }
        let keep_ex = match exclude {
            Some(e) => es[i].0 != e,
            None => true,
        };
        let keep_chan = match chan {
            Some(cn) => {
                match &es[i].1.channel {
                    Some(uc) => str_eq(uc.as_str(), cn),
                    None => false,
                }
            },
            None => true,
        };
        proof {
            assert(m.dom().contains(k) && esv[i as int].1@ == m[k]);
        }
        if keep_ex && keep_chan {
            proof {
                assert(tset.contains(k));
                assert(tset.intersect(seen.insert(k)) =~= tset.intersect(seen).insert(k));
                assert(!tset.intersect(seen).contains(k));
            }
            let ghost pre = r@;
            r.push(Delivery { target: es[i].0, line: line.clone() });
            proof {
                lemma_devs_push(pre, r@.last());
            }
        } else {
            proof {
                assert(!tset.contains(k));
                assert(tset.intersect(seen.insert(k)) =~= tset.intersect(seen));
            }
        }
        i += 1;
    }
    proof {
        assert(tset.intersect(seen_keys(esv, n as int)) =~= tset) by {
            assert forall|x: u128| tset.contains(x) implies seen_keys(esv, n as int).contains(
                x,
            ) by {
                assert(m.dom().contains(x));
            }
        }
    }
    r
}

/// Compute the single write a direct message causes: the line goes to the
/// one recipient, if it exists and the message fits on a line.
pub fn send_to_user<T: ToIrc>(message: &T, users: &UserTable, id: u128) -> (r: Option<Delivery>)
    ensures
        match r {
            Some(d) => message.wire_ok() && users_of(*users).dom().contains(id) && d@
                == (DeliveryView { target: id, line: message.irc_line() + crlf() }),
            None => !message.wire_ok() || !users_of(*users).dom().contains(id),
        },
{
    match message.to_irc() {
        Ok(line) => {
            match get_user(users, id) {
                Some(_) => Some(Delivery { target: id, line }),
                None => None,
            }
        },
        Err(_) => None,
    }
}

/// Compute the writes a channel fan-out causes: the line goes once to every
/// member of the channel except the excluded originator.
pub fn send_to_channel<T: ToIrc>(
    message: &T,
    users: &UserTable,
    channel: &Channel,
    id_to_exclude: u128,
) -> (r: Vec<Delivery>)
    ensures
        message.wire_ok() ==> fanout_ok(
            devs(r@),
            message.irc_line() + crlf(),
            spec_members(users_of(*users), channel@.name).remove(id_to_exclude),
        ),
        !message.wire_ok() ==> r@.len() == 0,
{
    let r = fanout_to(message, users, Some(channel.name.as_str()), Some(id_to_exclude));
    proof {
        assert(sel_targets(users_of(*users), Some(channel@.name), Some(id_to_exclude))
            =~= spec_members(users_of(*users), channel@.name).remove(id_to_exclude));
    }
    r
}

/// Compute the writes a broadcast causes: the line goes once to everyone
/// but the excluded originator.
pub fn broadcast_message<T: ToIrc>(message: &T, users: &UserTable, id_to_exclude: u128) -> (r:
    Vec<Delivery>)
    ensures
        message.wire_ok() ==> fanout_ok(
            devs(r@),
            message.irc_line() + crlf(),
            users_of(*users).dom().remove(id_to_exclude),
        ),
        !message.wire_ok() ==> r@.len() == 0,
{
    let r = fanout_to(message, users, None, Some(id_to_exclude));
    proof {
        assert(sel_targets(users_of(*users), None, Some(id_to_exclude)) =~= users_of(
            *users,
        ).dom().remove(id_to_exclude));
    }
    r
}

/// Compute the writes a full broadcast causes: the line goes once to every
/// participant, the originator included.
pub fn broadcast_to_all<T: ToIrc>(message: &T, users: &UserTable) -> (r: Vec<Delivery>)
    ensures
        message.wire_ok() ==> fanout_ok(
            devs(r@),
            message.irc_line() + crlf(),
            users_of(*users).dom(),
        ),
        !message.wire_ok() ==> r@.len() == 0,
{
    let r = fanout_to(message, users, None, None);
    proof {
        assert(sel_targets(users_of(*users), None, None) =~= users_of(*users).dom());
    }
    r
}

} // verus!
