//! Command dispatcher: interpret one parsed command against the current
//! registries, mutate them, and compute the deliveries to write.
//!
//! `dispatch_post` is the transition relation of the whole engine: it pins
//! the registry contents after the command, the verdict, and the deliveries
//! (exactly, up to the unspecified iteration order of a fan-out).

use vstd::prelude::*;

use crate::codec::Command;
use crate::codec::MessageView;
use crate::codec::Message;
use crate::codec::ReplyCode;
use crate::codec::Response;
use crate::codec::ResponseView;
use crate::codec::crlf;
use crate::codec::has_space;
use crate::codec::params_wire_ok;
use crate::codec::space_count;
use crate::codec::spec_msg_line;
use crate::codec::spec_parse;
use crate::codec::spec_resp_line;
use crate::registry::ChannelTable;
use crate::registry::ChannelView;
use crate::registry::User;
use crate::registry::UserTable;
use crate::registry::UserView;
use crate::registry::channels_of;
use crate::registry::channel_entries_match;
use crate::registry::dm_channels_entries;
use crate::registry::dm_users_entries;
use crate::registry::ensure_channel;
use crate::registry::get_nickname_id;
use crate::registry::get_user;
use crate::registry::nickname_in_use;
use crate::registry::put_user;
use crate::registry::spec_members;
use crate::registry::spec_nick_used;
use crate::registry::spec_user_prefix;
use crate::registry::user_entries_match;
use crate::registry::users_of;
use crate::router::Delivery;
use crate::router::DeliveryView;
use crate::router::devs;
use crate::router::fanout_ok;
use crate::router::lemma_devs_push;
use crate::router::send_to_user;

verus! {

broadcast use vstd::set::group_set_axioms;

/// What the session loop should do after a command: keep reading, or end
/// the session.
#[derive(Clone, Copy, Debug, PartialEq, Eq, Structural)]
pub enum CommandResponse {
    Continue,
    Quit,
}

/// The commands an unregistered participant may use.
pub open spec fn is_reg_cmd(c: Command) -> bool {
    c == Command::User || c == Command::Nick || c == Command::Quit
}

/// Nickname uniqueness: no two distinct participants hold the same
/// nickname.
pub open spec fn nicks_unique(m: Map<u128, UserView>) -> bool {
    forall|i: u128, j: u128|
        m.dom().contains(i) && m.dom().contains(j) && i != j && (#[trigger] m[i]).nickname is Some
            && (#[trigger] m[j]).nickname is Some ==> m[i].nickname != m[j].nickname
}

/// Channel back-pointers are live: a joined channel is in the registry.
pub open spec fn channels_backed(u: Map<u128, UserView>, c: Map<Seq<char>, ChannelView>) -> bool {
    forall|i: u128|
        u.dom().contains(i) && (#[trigger] u[i]).channel is Some ==> c.dom().contains(
            u[i].channel->0,
        )
}

/// A registered participant has both handles set.
pub open spec fn registered_named(m: Map<u128, UserView>) -> bool {
    forall|i: u128|
        m.dom().contains(i) && (#[trigger] m[i]).is_registered ==> m[i].nickname is Some
            && m[i].username is Some
}

/// Channel records carry their own key as name.
pub open spec fn channel_names_keyed(c: Map<Seq<char>, ChannelView>) -> bool {
    forall|n: Seq<char>| c.dom().contains(n) ==> (#[trigger] c[n]).name == n
}

/// Participant records carry their own key as id.
pub open spec fn ids_keyed(m: Map<u128, UserView>) -> bool {
    forall|i: u128| m.dom().contains(i) ==> (#[trigger] m[i]).id == i
}

/// The registry invariants the dispatcher maintains.
pub open spec fn registries_wf(u: Map<u128, UserView>, c: Map<Seq<char>, ChannelView>) -> bool {
    &&& nicks_unique(u)
    &&& channels_backed(u, c)
    &&& registered_named(u)
    &&& channel_names_keyed(c)
    &&& ids_keyed(u)
}

/// The message as routed: its prefix rewritten to the originator's.
pub open spec fn with_prefix(m: MessageView, p: Option<Seq<char>>) -> MessageView {
    MessageView { prefix: p, command: m.command, params: m.params }
}

/// The complete wire line of a message, terminator included.
pub open spec fn msg_dev_line(m: MessageView) -> Seq<char> {
    spec_msg_line(m) + crlf()
}

/// The complete wire line of a numeric reply, terminator included.
pub open spec fn resp_dev_line(sp: Seq<char>, code: ReplyCode, ps: Seq<Seq<char>>) -> Seq<char> {
    spec_resp_line(ResponseView { prefix: sp, code, params: ps }) + crlf()
}

/// A delivery of a one-parameter numeric reply.
pub open spec fn resp_dev1(
    id: u128,
    sp: Seq<char>,
    code: ReplyCode,
    text: Seq<char>,
) -> DeliveryView {
    DeliveryView { target: id, line: resp_dev_line(sp, code, seq![text]) }
}

/// The deliveries a message to one recipient causes: one, unless the
/// message cannot be laid out on a line.
pub open spec fn one_msg_devs(m: MessageView, rid: u128) -> Seq<DeliveryView> {
    if params_wire_ok(m.params) {
        seq![DeliveryView { target: rid, line: msg_dev_line(m) }]
    } else {
        Seq::empty()
    }
}

/// The participant holding a nickname; meaningful when `spec_nick_used`
/// holds and nicknames are unique.
pub open spec fn nick_owner(m: Map<u128, UserView>, nick: Seq<char>) -> u128 {
    choose|i: u128| #[trigger] m.dom().contains(i) && m[i].nickname == Some(nick)
}

/// Whether the welcome transition fires: both handles set, not yet
/// registered.
pub open spec fn should_register(u: UserView) -> bool {
    !u.is_registered && spec_user_prefix(u) is Some
}

/// The welcome reply line for a freshly registered participant: sourced
/// from the participant's own prefix.
pub open spec fn welcome_line(u: UserView) -> Seq<char> {
    let p = spec_user_prefix(u)->0;
    resp_dev_line(
        p,
        ReplyCode::RPL_WELCOME,
        seq![u.nickname->0, "Welcome to the Internet Relay Network "@ + p],
    )
}

/// Registry contents after the registration epilogue.
pub open spec fn epilogue_state(u: Map<u128, UserView>, id: u128) -> Map<u128, UserView> {
    if u.dom().contains(id) && should_register(u[id]) {
        u.insert(
            id,
            UserView {
                is_registered: true,
                id: u[id].id,
                address: u[id].address,
                nickname: u[id].nickname,
                username: u[id].username,
                is_away: u[id].is_away,
                channel: u[id].channel,
            },
        )
    } else {
        u
    }
}

/// Deliveries of the registration epilogue: exactly one welcome reply on
/// the transition; none when the nickname cannot be laid out on a line.
pub open spec fn epilogue_devs(u: Map<u128, UserView>, id: u128) -> Seq<DeliveryView> {
    if u.dom().contains(id) && should_register(u[id]) && !has_space(u[id].nickname->0) {
        seq![DeliveryView { target: id, line: welcome_line(u[id]) }]
    } else {
        Seq::empty()
    }
}

/// A participant record with the username replaced.
pub open spec fn set_username(u: UserView, n: Seq<char>) -> UserView {
    UserView {
        id: u.id,
        address: u.address,
        nickname: u.nickname,
        username: Some(n),
        is_registered: u.is_registered,
        is_away: u.is_away,
        channel: u.channel,
    }
}

/// A participant record with the nickname replaced.
pub open spec fn set_nickname(u: UserView, n: Seq<char>) -> UserView {
    UserView {
        id: u.id,
        address: u.address,
        nickname: Some(n),
        username: u.username,
        is_registered: u.is_registered,
        is_away: u.is_away,
        channel: u.channel,
    }
}

/// A participant record with the away flag toggled.
pub open spec fn toggle_away(u: UserView) -> UserView {
    UserView {
        id: u.id,
        address: u.address,
        nickname: u.nickname,
        username: u.username,
        is_registered: u.is_registered,
        is_away: !u.is_away,
        channel: u.channel,
    }
}

/// A participant record with the channel back-pointer replaced.
pub open spec fn set_channel(u: UserView, c: Option<Seq<char>>) -> UserView {
    UserView {
        id: u.id,
        address: u.address,
        nickname: u.nickname,
        username: u.username,
        is_registered: u.is_registered,
        is_away: u.is_away,
        channel: c,
    }
}

/// A delivery of a two-parameter numeric reply.
pub open spec fn resp_dev2(
    id: u128,
    sp: Seq<char>,
    code: ReplyCode,
    p1: Seq<char>,
    p2: Seq<char>,
) -> DeliveryView {
    DeliveryView { target: id, line: resp_dev_line(sp, code, seq![p1, p2]) }
}

/// The away indication sent back to the originator of a direct message,
/// when it can be laid out on a line.
pub open spec fn away_devs(id: u128, sp: Seq<char>, rcpt: Seq<char>) -> Seq<DeliveryView> {
    if !has_space(rcpt) {
        seq![
            resp_dev2(
                id,
                sp,
                ReplyCode::RPL_AWAY,
                rcpt,
                "The recipient is marked as away."@,
            ),
        ]
    } else {
        Seq::empty()
    }
}

/// The quit acknowledgement: an `ERROR` line sourced from the server.
pub open spec fn ack_dev(id: u128, sp: Seq<char>) -> DeliveryView {
    DeliveryView {
        target: id,
        line: msg_dev_line(
            MessageView {
                prefix: Some(sp),
                command: Command::Error,
                params: seq!["User disconnected."@],
            },
        ),
    }
}

/// The reply to a ping: a `PONG` line sourced from the server.
pub open spec fn pong_dev(id: u128, sp: Seq<char>) -> DeliveryView {
    DeliveryView {
        target: id,
        line: msg_dev_line(
            MessageView { prefix: Some(sp), command: Command::Pong, params: seq![sp] },
        ),
    }
}

/// One channel's listing reply.
pub open spec fn list_dev(
    u0: Map<u128, UserView>,
    sp: Seq<char>,
    id: u128,
    c: Seq<char>,
) -> DeliveryView {
    DeliveryView {
        target: id,
        line: resp_dev_line(
            sp,
            ReplyCode::RPL_LIST,
            seq![c, spec_dec(spec_members(u0, c).len())],
        ),
    }
}

/// The listing replies for channels in a given order.
pub open spec fn list_devs(
    u0: Map<u128, UserView>,
    sp: Seq<char>,
    id: u128,
    cs: Seq<Seq<char>>,
) -> Seq<DeliveryView> {
    cs.map(|_i: int, c: Seq<char>| list_dev(u0, sp, id, c))
}

/// The deliveries of a listing: one reply per channel, each channel once,
/// in some order, closed by the end-of-list reply.
pub open spec fn list_post(
    ds: Seq<DeliveryView>,
    u0: Map<u128, UserView>,
    c0: Map<Seq<char>, ChannelView>,
    id: u128,
    sp: Seq<char>,
) -> bool {
    exists|cs: Seq<Seq<char>>|
        {
            &&& cs.no_duplicates()
            &&& forall|n: Seq<char>| #[trigger] cs.contains(n) <==> c0.dom().contains(n)
            &&& ds == list_devs(u0, sp, id, cs).push(
                resp_dev1(id, sp, ReplyCode::RPL_LISTEND, "End of LIST"@),
            )
        }
}

/// A command that only answers its originator: registries unchanged, one
/// reply, the session goes on.
pub open spec fn reply_only(
    u0: Map<u128, UserView>,
    c0: Map<Seq<char>, ChannelView>,
    u2: Map<u128, UserView>,
    c2: Map<Seq<char>, ChannelView>,
    ds: Seq<DeliveryView>,
    vd: CommandResponse,
    id: u128,
    sp: Seq<char>,
    code: ReplyCode,
    text: Seq<char>,
) -> bool {
    &&& u2 == u0
    &&& c2 == c0
    &&& vd == CommandResponse::Continue
    &&& ds == seq![resp_dev1(id, sp, code, text)]
}

/// The transition relation of the dispatcher: given the registries before
/// (`u0`, `c0`), the inbound message `mv` and the server prefix `sp`, it
/// pins the registries after (`u2`, `c2`), the deliveries `ds` and the
/// verdict `vd`. Fan-out deliveries are pinned up to their order.
pub open spec fn dispatch_post(
    u0: Map<u128, UserView>,
    c0: Map<Seq<char>, ChannelView>,
    u2: Map<u128, UserView>,
    c2: Map<Seq<char>, ChannelView>,
    ds: Seq<DeliveryView>,
    vd: CommandResponse,
    id: u128,
    mv: MessageView,
    sp: Seq<char>,
) -> bool {
    let u = u0[id];
    let m = with_prefix(mv, spec_user_prefix(u));
    if !u.is_registered && !is_reg_cmd(mv.command) {
        reply_only(
            u0,
            c0,
            u2,
            c2,
            ds,
            vd,
            id,
            sp,
            ReplyCode::ERR_NOTREGISTERED,
            "You have not registered."@,
        )
    } else {
        match mv.command {
            Command::User => {
                if mv.params.len() == 0 {
                    reply_only(
                        u0,
                        c0,
                        u2,
                        c2,
                        ds,
                        vd,
                        id,
                        sp,
                        ReplyCode::ERR_NONICKNAMEGIVEN,
                        "No nickname was given."@,
                    )
                } else if u.is_registered {
                    reply_only(
                        u0,
                        c0,
                        u2,
                        c2,
                        ds,
                        vd,
                        id,
                        sp,
                        ReplyCode::ERR_ALREADYREGISTRED,
                        "Cannot send USER message since the client is already registered."@,
                    )
                } else {
                    let u1 = u0.insert(id, set_username(u, mv.params[0]));
                    &&& u2 == epilogue_state(u1, id)
                    &&& c2 == c0
                    &&& vd == CommandResponse::Continue
                    &&& ds == epilogue_devs(u1, id)
                }
            },
            Command::Nick => {
                if mv.params.len() == 0 {
                    reply_only(
                        u0,
                        c0,
                        u2,
                        c2,
                        ds,
                        vd,
                        id,
                        sp,
                        ReplyCode::ERR_NONICKNAMEGIVEN,
                        "No nickname was given."@,
                    )
                } else if spec_nick_used(u0, mv.params[0]) {
                    reply_only(
                        u0,
                        c0,
                        u2,
                        c2,
                        ds,
                        vd,
                        id,
                        sp,
                        ReplyCode::ERR_NICKNAMEINUSE,
                        "Nickname is already in use."@,
                    )
                } else {
                    let u1 = u0.insert(id, set_nickname(u, mv.params[0]));
                    &&& c2 == c0
                    &&& vd == CommandResponse::Continue
                    &&& if u.is_registered {
                        &&& u2 == u1
                        &&& params_wire_ok(mv.params) ==> fanout_ok(
                            ds,
                            msg_dev_line(m),
                            u1.dom(),
                        )
                        &&& !params_wire_ok(mv.params) ==> ds == Seq::<DeliveryView>::empty()
                    } else {
                        &&& u2 == epilogue_state(u1, id)
                        &&& ds == epilogue_devs(u1, id)
                    }
                }
            },
            Command::Away => {
                &&& u2 == u0.insert(id, toggle_away(u))
                &&& c2 == c0
                &&& vd == CommandResponse::Continue
                &&& ds == seq![
                    if !u.is_away {
                        resp_dev1(id, sp, ReplyCode::RPL_NOWAWAY, "You are now away."@)
                    } else {
                        resp_dev1(id, sp, ReplyCode::RPL_UNAWAY, "You are no longer away."@)
                    },
                ]
            },
            Command::PrivMsg => {
                if mv.params.len() != 2 {
                    reply_only(
                        u0,
                        c0,
                        u2,
                        c2,
                        ds,
                        vd,
                        id,
                        sp,
                        ReplyCode::ERR_NORECIPIENT,
                        "No recipient for the message was given."@,
                    )
                } else {
                    let rcpt = mv.params[0];
                    if !(rcpt.len() > 0 && rcpt[0] == '#') {
                        if spec_nick_used(u0, rcpt) {
                            let rid = nick_owner(u0, rcpt);
                            &&& u2 == u0
                            &&& c2 == c0
                            &&& vd == CommandResponse::Continue
                            &&& ds == (if u0[rid].is_away {
                                away_devs(id, sp, rcpt)
                            } else {
                                Seq::<DeliveryView>::empty()
                            }) + one_msg_devs(m, rid)
                        } else {
                            reply_only(
                                u0,
                                c0,
                                u2,
                                c2,
                                ds,
                                vd,
                                id,
                                sp,
                                ReplyCode::ERR_NOSUCHNICK,
                                "The given nick was not found."@,
                            )
                        }
                    } else {
                        if !c0.dom().contains(rcpt) {
                            reply_only(
                                u0,
                                c0,
                                u2,
                                c2,
                                ds,
                                vd,
                                id,
                                sp,
                                ReplyCode::ERR_NOSUCHCHANNEL,
                                "The given channel was not found."@,
                            )
                        } else if u.channel != Some(rcpt) {
                            reply_only(
                                u0,
                                c0,
                                u2,
                                c2,
                                ds,
                                vd,
                                id,
                                sp,
                                ReplyCode::ERR_CANNOTSENDTOCHAN,
                                "You are not in that channel."@,
                            )
                        } else {
                            &&& u2 == u0
                            &&& c2 == c0
                            &&& vd == CommandResponse::Continue
                            &&& params_wire_ok(mv.params) ==> fanout_ok(
                                ds,
                                msg_dev_line(m),
                                spec_members(u0, rcpt).remove(id),
                            )
                            &&& !params_wire_ok(mv.params) ==> ds == Seq::<
                                DeliveryView,
                            >::empty()
                        }
                    }
                }
            },
            Command::Quit => {
                &&& u2 == u0
                &&& c2 == c0
                &&& vd == CommandResponse::Quit
                &&& ds.len() >= 1
                &&& ds[0] == ack_dev(id, sp)
                &&& if u.is_registered {
                    &&& params_wire_ok(mv.params) ==> fanout_ok(
                        ds.skip(1),
                        msg_dev_line(m),
                        u0.dom().remove(id),
                    )
                    &&& !params_wire_ok(mv.params) ==> ds.len() == 1
                } else {
                    ds.len() == 1
                }
            },
            Command::Unknown => {
                reply_only(
                    u0,
                    c0,
                    u2,
                    c2,
                    ds,
                    vd,
                    id,
                    sp,
                    ReplyCode::ERR_UNKNOWNCOMMAND,
                    "Unknown command."@,
                )
            },
            Command::Join => {
                if mv.params.len() == 0 {
                    reply_only(
                        u0,
                        c0,
                        u2,
                        c2,
                        ds,
                        vd,
                        id,
                        sp,
                        ReplyCode::ERR_NEEDMOREPARAMS,
                        "Specify which channel to join."@,
                    )
                } else {
                    let cn = mv.params[0];
                    let c1 = if c0.dom().contains(cn) {
                        c0
                    } else {
                        c0.insert(cn, ChannelView { name: cn })
                    };
                    let u1 = u0.insert(id, set_channel(u, Some(cn)));
                    &&& u2 == u1
                    &&& c2 == c1
                    &&& vd == CommandResponse::Continue
                    &&& params_wire_ok(mv.params) ==> fanout_ok(
                        ds,
                        msg_dev_line(m),
                        spec_members(u1, cn).remove(id),
                    )
                    &&& !params_wire_ok(mv.params) ==> ds == Seq::<DeliveryView>::empty()
                }
            },
            Command::Part => {
                if mv.params.len() == 0 {
                    reply_only(
                        u0,
                        c0,
                        u2,
                        c2,
                        ds,
                        vd,
                        id,
                        sp,
                        ReplyCode::ERR_NEEDMOREPARAMS,
                        "Specify which channel to leave."@,
                    )
                } else {
                    let cn = mv.params[0];
                    if !c0.dom().contains(cn) {
                        reply_only(
                            u0,
                            c0,
                            u2,
                            c2,
                            ds,
                            vd,
                            id,
                            sp,
                            ReplyCode::ERR_NOSUCHCHANNEL,
                            "The given channel was not found."@,
                        )
                    } else if u.channel != Some(cn) {
                        reply_only(
                            u0,
                            c0,
                            u2,
                            c2,
                            ds,
                            vd,
                            id,
                            sp,
                            ReplyCode::ERR_NOTONCHANNEL,
                            "You are not in that channel."@,
                        )
                    } else {
                        let u1 = u0.insert(id, set_channel(u, None));
                        &&& u2 == u1
                        &&& c2 == c0
                        &&& vd == CommandResponse::Continue
                        &&& params_wire_ok(mv.params) ==> fanout_ok(
                            ds,
                            msg_dev_line(m),
                            spec_members(u1, cn).remove(id),
                        )
                        &&& !params_wire_ok(mv.params) ==> ds == Seq::<DeliveryView>::empty()
                    }
                }
            },
            Command::Kick => {
                if mv.params.len() == 0 {
                    reply_only(
                        u0,
                        c0,
                        u2,
                        c2,
                        ds,
                        vd,
                        id,
                        sp,
                        ReplyCode::ERR_NEEDMOREPARAMS,
                        "Specify a channel and user to kick."@,
                    )
                } else if mv.params.len() == 1 {
                    reply_only(
                        u0,
                        c0,
                        u2,
                        c2,
                        ds,
                        vd,
                        id,
                        sp,
                        ReplyCode::ERR_NEEDMOREPARAMS,
                        "Specify a user to kick."@,
                    )
                } else {
                    let cn = mv.params[0];
                    let tn = mv.params[1];
                    if !c0.dom().contains(cn) {
                        reply_only(
                            u0,
                            c0,
                            u2,
                            c2,
                            ds,
                            vd,
                            id,
                            sp,
                            ReplyCode::ERR_NOSUCHCHANNEL,
                            "The given channel was not found."@,
                        )
                    } else if u.channel != Some(cn) {
                        reply_only(
                            u0,
                            c0,
                            u2,
                            c2,
                            ds,
                            vd,
                            id,
                            sp,
                            ReplyCode::ERR_NOTONCHANNEL,
                            "You are not in that channel."@,
                        )
                    } else if !spec_nick_used(u0, tn) {
                        reply_only(
                            u0,
                            c0,
                            u2,
                            c2,
                            ds,
                            vd,
                            id,
                            sp,
                            ReplyCode::ERR_NOSUCHNICK,
                            "The given user was not found."@,
                        )
                    } else {
                        let rid = nick_owner(u0, tn);
                        if u0[rid].channel != Some(cn) {
                            reply_only(
                                u0,
                                c0,
                                u2,
                                c2,
                                ds,
                                vd,
                                id,
                                sp,
                                ReplyCode::ERR_USERNOTINCHANNEL,
                                "That user is not in the channel."@,
                            )
                        } else {
                            &&& u2 == u0.insert(rid, set_channel(u0[rid], None))
                            &&& c2 == c0
                            &&& vd == CommandResponse::Continue
                            &&& params_wire_ok(mv.params) ==> fanout_ok(
                                ds,
                                msg_dev_line(m),
                                spec_members(u0, cn).remove(id),
                            )
                            &&& !params_wire_ok(mv.params) ==> ds == Seq::<
                                DeliveryView,
                            >::empty()
                        }
                    }
                }
            },
            Command::List => {
                &&& u2 == u0
                &&& c2 == c0
                &&& vd == CommandResponse::Continue
                &&& list_post(ds, u0, c0, id, sp)
            },
            Command::Ping => {
                &&& u2 == u0
                &&& c2 == c0
                &&& vd == CommandResponse::Continue
                &&& ds == seq![pong_dev(id, sp)]
            },
            Command::Pong | Command::Error => {
                &&& u2 == u0
                &&& c2 == c0
                &&& vd == CommandResponse::Continue
                &&& ds == Seq::<DeliveryView>::empty()
            },
        }
    }
}

/// The dispatcher never adds or drops participants, and never unregisters
/// one.
pub proof fn lemma_dispatch_frame(
    u0: Map<u128, UserView>,
    c0: Map<Seq<char>, ChannelView>,
    u2: Map<u128, UserView>,
    c2: Map<Seq<char>, ChannelView>,
    ds: Seq<DeliveryView>,
    vd: CommandResponse,
    id: u128,
    mv: MessageView,
    sp: Seq<char>,
)
    requires
        u0.dom().contains(id),
        dispatch_post(u0, c0, u2, c2, ds, vd, id, mv, sp),
    ensures
        u2.dom() == u0.dom(),
        forall|k: u128|
            u0.dom().contains(k) && (#[trigger] u0[k]).is_registered ==> u2[k].is_registered,
        forall|n: Seq<char>| c0.dom().contains(n) ==> #[trigger] c2.dom().contains(n),
{
    let u = u0[id];
    if !u.is_registered && !is_reg_cmd(mv.command) {
        assert(u2.dom() =~= u0.dom());
    } else {
        match mv.command {
            Command::User => {
                if mv.params.len() == 0 || u.is_registered {
                    assert(u2.dom() =~= u0.dom());
                } else {
                    let u1 = u0.insert(id, set_username(u, mv.params[0]));
                    assert(u1.dom() =~= u0.dom());
                    assert(epilogue_state(u1, id).dom() =~= u1.dom());
                }
            },
            Command::Nick => {
                if mv.params.len() == 0 || spec_nick_used(u0, mv.params[0]) {
                    assert(u2.dom() =~= u0.dom());
                } else {
                    let u1 = u0.insert(id, set_nickname(u, mv.params[0]));
                    assert(u1.dom() =~= u0.dom());
                    assert(epilogue_state(u1, id).dom() =~= u1.dom());
                }
            },
            Command::Away => {
                assert(u2.dom() =~= u0.dom());
            },
            Command::PrivMsg | Command::Quit | Command::Unknown | Command::List | Command::Ping
                | Command::Pong | Command::Error => {
                assert(u2.dom() =~= u0.dom());
            },
            Command::Join | Command::Part => {
                if u2 != u0 {
                    assert(u2.dom() =~= u0.dom());
                }
            },
            Command::Kick => {
                if u2 != u0 {
                    let rid = nick_owner(u0, mv.params[1]);
                    assert(u0.dom().contains(rid));
                    assert(u2.dom() =~= u0.dom());
                }
            },
        }
    }
}

proof fn lemma_space_count_pair(a: Seq<char>, b: Seq<char>)
    ensures
        space_count(seq![a, b]) == (if has_space(a) {
            1nat
        } else {
            0nat
        }) + (if has_space(b) {
            1nat
        } else {
            0nat
        }),
{
    assert(seq![a, b].drop_first() =~= seq![b]);
    assert(seq![b].drop_first() =~= Seq::<Seq<char>>::empty());
    assert(space_count(Seq::<Seq<char>>::empty()) == 0);
    assert(seq![a, b][0] == a);
    assert(seq![b][0] == b);
    assert(space_count(seq![b]) == (if has_space(b) {
        1nat
    } else {
        0nat
    }) + space_count(Seq::<Seq<char>>::empty()));
}

proof fn lemma_single_param_ok(a: Seq<char>)
    ensures
        params_wire_ok(seq![a]),
{
    assert(seq![a].drop_first() =~= Seq::<Seq<char>>::empty());
    assert(space_count(Seq::<Seq<char>>::empty()) == 0);
}

proof fn lemma_pair_param_ok(a: Seq<char>, b: Seq<char>)
    requires
        !has_space(b),
    ensures
        params_wire_ok(seq![a, b]),
{
    lemma_space_count_pair(a, b);
}

/// Decimal digits of a natural number.
pub open spec fn spec_digit(d: nat) -> char {
    if d == 0 {
        '0'
    } else if d == 1 {
        '1'
    } else if d == 2 {
        '2'
    } else if d == 3 {
        '3'
    } else if d == 4 {
        '4'
    } else if d == 5 {
        '5'
    } else if d == 6 {
        '6'
    } else if d == 7 {
        '7'
    } else if d == 8 {
        '8'
    } else {
        '9'
    }
}

/// The decimal representation of a natural number.
pub open spec fn spec_dec(n: nat) -> Seq<char>
    decreases n,
{
    if n < 10 {
        seq![spec_digit(n)]
    } else {
        spec_dec(n / 10).push(spec_digit(n % 10))
    }
}

pub proof fn lemma_dec_no_space(n: nat)
    ensures
        spec_dec(n).len() > 0,
        !has_space(spec_dec(n)),
    decreases n,
{
    if n < 10 {
        assert(spec_dec(n)[0] != ' ');
    } else {
        lemma_dec_no_space(n / 10);
        assert forall|i: int| 0 <= i < spec_dec(n).len() implies spec_dec(n)[i] != ' ' by {
            if i < spec_dec(n / 10).len() {
                assert(spec_dec(n)[i] == spec_dec(n / 10)[i]);
                assert(spec_dec(n / 10)[i] != ' ');
            } else {
                assert(spec_dec(n)[i] == spec_digit(n % 10));
            }
        }
        if has_space(spec_dec(n)) {
            let i = choose|i: int| 0 <= i < spec_dec(n).len() && spec_dec(n)[i] == ' ';
        }
    }
}

fn digit_str(d: usize) -> (r: &'static str)
    requires
        d < 10,
    ensures
        r@ == seq![spec_digit(d as nat)],
{
    let r: &'static str = match d {
        0 => "0",
        1 => "1",
        2 => "2",
        3 => "3",
        4 => "4",
        5 => "5",
        6 => "6",
        7 => "7",
        8 => "8",
        _ => "9",
    };
    proof {
        reveal_strlit("0");
        reveal_strlit("1");
        reveal_strlit("2");
        reveal_strlit("3");
        reveal_strlit("4");
        reveal_strlit("5");
        reveal_strlit("6");
        reveal_strlit("7");
        reveal_strlit("8");
        reveal_strlit("9");
        assert(r@ =~= seq![spec_digit(d as nat)]);
    }
    r
}

/// Decimal formatting, used for the member count in a list reply.
fn usize_to_string(n: usize) -> (s: String)
    ensures
        s@ == spec_dec(n as nat),
    decreases n,
{
    if n < 10 {
        digit_str(n).to_owned()
    } else {
        let mut s = usize_to_string(n / 10);
        s.append(digit_str(n % 10));
        proof {
            assert(s@ =~= spec_dec(n as nat));
        }
        s
    }
}

/// Build the single reply a command sends back to its originator.
fn self_reply(users: &UserTable, id: u128, sp: &str, code: ReplyCode, text: &str) -> (r: Vec<
    Delivery,
>)
    requires
        users_of(*users).dom().contains(id),
    ensures
        devs(r@) == seq![resp_dev1(id, sp@, code, text@)],
{
    let resp = Response::new(sp, code, &[text]);
    proof {
        lemma_single_param_ok(text@);
        assert(resp@.params =~= seq![text@]);
    }
    let mut out: Vec<Delivery> = Vec::new();
    match send_to_user(&resp, users, id) {
        Some(d) => {
            out.push(d);
            proof {
                lemma_devs_push(Seq::<Delivery>::empty(), d);
                assert(devs(Seq::<Delivery>::empty()) =~= Seq::<DeliveryView>::empty());
                assert(devs(out@) =~= seq![resp_dev1(id, sp@, code, text@)]);
            }
        },
        None => {
            proof {
                assert(false);
            }
        },
    }
    out
}

/// Count a channel's members: a linear scan of the participant registry.
fn channel_member_count(users: &UserTable, name: &str) -> (c: usize)
    ensures
        c == spec_members(users_of(*users), name@).len(),
{
    let ghost m = users_of(*users);
    let ghost tset = spec_members(m, name@);
    let es = dm_users_entries(users);
    let ghost esv = es@;
    proof {
        vstd::set_lib::lemma_len_subset(tset, m.dom());
        assert(crate::router::seen_keys(esv, 0) =~= Set::<u128>::empty());
        assert(tset.intersect(crate::router::seen_keys(esv, 0)) =~= Set::<u128>::empty());
    }
    let n = es.len();
    let mut count: usize = 0;
    let mut i: usize = 0;
    while i < n
        invariant
            n == esv.len(),
            0 <= i <= n,
            esv == es@,
            user_entries_match(esv, m),
            m == users_of(*users),
            tset == spec_members(m, name@),
            tset.finite(),
            count <= i,
            count == tset.intersect(crate::router::seen_keys(esv, i as int)).len(),
        decreases n - i,
    {
        let ghost k = esv[i as int].0;
        let ghost seen = crate::router::seen_keys(esv, i as int);
        proof {
            assert(crate::router::seen_keys(esv, i + 1 as int) =~= seen.insert(k));
            if seen.contains(k) {
                let j = choose|j: int| 0 <= j < i && esv[j].0 == k;
                assert(esv[j].0 == esv[i as int].0);
                assert(false);
            }
            assert(m.dom().contains(k) && esv[i as int].1@ == m[k]);
        }
        let is_member = match &es[i].1.channel {
            Some(uc) => crate::codec::str_eq(uc.as_str(), name),
            None => false,
        };
        if is_member {
            proof {
                assert(tset.contains(k));
                assert(tset.intersect(seen.insert(k)) =~= tset.intersect(seen).insert(k));
                assert(!tset.intersect(seen).contains(k));
            }
            count += 1;
        } else {
            proof {
                assert(!tset.contains(k));
                assert(tset.intersect(seen.insert(k)) =~= tset.intersect(seen));
            }
        }
        i += 1;
    }
    proof {
        assert(tset.intersect(crate::router::seen_keys(esv, n as int)) =~= tset) by {
            assert forall|x: u128| tset.contains(x) implies crate::router::seen_keys(
                esv,
                n as int,
            ).contains(x) by {
                assert(m.dom().contains(x));
            }
        }
    }
    count
}

/// Inserting an updated record for one participant keeps the registry
/// invariants, provided the update itself respects them.
proof fn lemma_wf_insert(
    u: Map<u128, UserView>,
    c: Map<Seq<char>, ChannelView>,
    id: u128,
    v: UserView,
)
    requires
        registries_wf(u, c),
        u.dom().contains(id),
        v.id == id,
        v.nickname == u[id].nickname || (v.nickname is Some && !spec_nick_used(u, v.nickname->0)),
        v.channel is Some ==> c.dom().contains(v.channel->0),
        v.is_registered ==> v.nickname is Some && v.username is Some,
    ensures
        registries_wf(u.insert(id, v), c),
{
    let u2 = u.insert(id, v);
    assert forall|i: u128, j: u128|
        u2.dom().contains(i) && u2.dom().contains(j) && i != j && (#[trigger] u2[i]).nickname
            is Some && (#[trigger] u2[j]).nickname is Some implies u2[i].nickname
        != u2[j].nickname by {
        if i == id {
            if v.nickname == u[id].nickname {
            } else {
                assert(u.dom().contains(j) && u[j] == u2[j]);
            }
        } else if j == id {
            if v.nickname == u[id].nickname {
            } else {
                assert(u.dom().contains(i) && u[i] == u2[i]);
            }
        }
    }
}

/// Creating a channel keeps the registry invariants.
proof fn lemma_wf_channel_insert(
    u: Map<u128, UserView>,
    c: Map<Seq<char>, ChannelView>,
    name: Seq<char>,
)
    requires
        registries_wf(u, c),
    ensures
        registries_wf(u, c.insert(name, ChannelView { name })),
{
}

/// The registration epilogue keeps the registry invariants.
proof fn lemma_wf_epilogue(u: Map<u128, UserView>, c: Map<Seq<char>, ChannelView>, id: u128)
    requires
        registries_wf(u, c),
    ensures
        registries_wf(epilogue_state(u, id), c),
{
    if u.dom().contains(id) && should_register(u[id]) {
        let v = UserView {
            is_registered: true,
            id: u[id].id,
            address: u[id].address,
            nickname: u[id].nickname,
            username: u[id].username,
            is_away: u[id].is_away,
            channel: u[id].channel,
        };
        lemma_wf_insert(u, c, id, v);
    }
}

/// Run the registration epilogue: if both handles are set and the
/// participant is not yet registered, mark it registered and send the
/// single welcome reply.
fn run_epilogue(users: &mut UserTable, user_id: u128) -> (r: Vec<Delivery>)
    requires
        users_of(*old(users)).dom().contains(user_id),
    ensures
        users_of(*final(users)) == epilogue_state(users_of(*old(users)), user_id),
        devs(r@) == epilogue_devs(users_of(*old(users)), user_id),
        users_of(*final(users)).dom() == users_of(*old(users)).dom(),
{
    let ghost m = users_of(*users);
    let u = match get_user(users, user_id) {
        Some(u) => u,
        None => {
            proof {
                assert(false);
            }
            return Vec::new();
        },
    };
    if u.is_registered {
        proof {
            assert(devs(Seq::<Delivery>::empty()) =~= epilogue_devs(m, user_id));
        }
        return Vec::new();
    }
    let pfx = match u.prefix() {
        Some(p) => p,
        None => {
            proof {
                assert(devs(Seq::<Delivery>::empty()) =~= epilogue_devs(m, user_id));
            }
            return Vec::new();
        },
    };
    let nick = match &u.nickname {
        Some(n) => n.clone(),
        None => {
            proof {
                assert(false);
            }
            return Vec::new();
        },
    };
    let mut text = "Welcome to the Internet Relay Network ".to_owned();
    text.append(pfx.as_str());
    let resp = Response::new(pfx.as_str(), ReplyCode::RPL_WELCOME, &[nick.as_str(), text.as_str()]);
    let mut u2 = u;
    u2.is_registered = true;
    put_user(users, user_id, u2);
    proof {
        assert(users_of(*users) =~= epilogue_state(m, user_id));
    }
    let mut out: Vec<Delivery> = Vec::new();
    proof {
        assert(resp@.params =~= seq![nick@, text@]);
        lemma_space_count_pair(nick@, text@);
        assert(has_space(text@)) by {
            reveal_strlit("Welcome to the Internet Relay Network ");
            assert("Welcome to the Internet Relay Network "@[7] == ' ');
            assert(text@[7] == ' ');
        }
    }
    match send_to_user(&resp, users, user_id) {
        Some(d) => {
            out.push(d);
            proof {
                assert(!has_space(nick@));
                lemma_devs_push(Seq::<Delivery>::empty(), d);
                assert(devs(Seq::<Delivery>::empty()) =~= Seq::<DeliveryView>::empty());
                assert(d@.line == welcome_line(m[user_id]));
                assert(devs(out@) =~= epilogue_devs(m, user_id));
            }
        },
        None => {
            proof {
                assert(has_space(nick@));
                assert(devs(out@) =~= epilogue_devs(m, user_id));
            }
        },
    }
    out
}

/// A record as it stood just before the welcome transition fired.
pub open spec fn set_unregistered(u: UserView) -> UserView {
    UserView {
        id: u.id,
        address: u.address,
        nickname: u.nickname,
        username: u.username,
        is_registered: false,
        is_away: u.is_away,
        channel: u.channel,
    }
}

/// Freshly created registries satisfy the invariants: with `lemma_wf_accept`,
/// `lemma_wf_remove` and the dispatcher's own contract, they hold after any
/// sequence of accepts, commands and departures.
pub proof fn lemma_wf_empty()
    ensures
        registries_wf(Map::<u128, UserView>::empty(), Map::<Seq<char>, ChannelView>::empty()),
{
}

/// Accepting a connection keeps the registry invariants: the fresh record
/// has no handles and no channel.
pub proof fn lemma_wf_accept(
    u: Map<u128, UserView>,
    c: Map<Seq<char>, ChannelView>,
    id: u128,
    addr: Seq<char>,
)
    requires
        registries_wf(u, c),
    ensures
        registries_wf(u.insert(id, crate::registry::spec_new_user(id, addr)), c),
{
}

/// Removing a participant keeps the registry invariants.
pub proof fn lemma_wf_remove(u: Map<u128, UserView>, c: Map<Seq<char>, ChannelView>, id: u128)
    requires
        registries_wf(u, c),
    ensures
        registries_wf(u.remove(id), c),
{
}

/// The registration transition happens only through USER or NICK, only
/// once both handles are set, and it emits exactly the one welcome reply
/// (none when the nickname cannot be laid out on a line).
pub proof fn lemma_registration_emits_welcome(
    u0: Map<u128, UserView>,
    c0: Map<Seq<char>, ChannelView>,
    u2: Map<u128, UserView>,
    c2: Map<Seq<char>, ChannelView>,
    ds: Seq<DeliveryView>,
    vd: CommandResponse,
    id: u128,
    mv: MessageView,
    sp: Seq<char>,
)
    requires
        u0.dom().contains(id),
        dispatch_post(u0, c0, u2, c2, ds, vd, id, mv, sp),
        !u0[id].is_registered,
        u2.dom().contains(id),
        u2[id].is_registered,
    ensures
        mv.command == Command::User || mv.command == Command::Nick,
        u2[id].nickname is Some && u2[id].username is Some,
        !has_space(u2[id].nickname->0) ==> ds =~= seq![
            DeliveryView { target: id, line: welcome_line(set_unregistered(u2[id])) },
        ],
        has_space(u2[id].nickname->0) ==> ds =~= Seq::<DeliveryView>::empty(),
{
    let u = u0[id];
    if !u.is_registered && !is_reg_cmd(mv.command) {
    } else {
        match mv.command {
            Command::User => {
                if mv.params.len() == 0 || u.is_registered {
                } else {
                    let u1 = u0.insert(id, set_username(u, mv.params[0]));
                    assert(should_register(u1[id]));
                    assert(u2[id] == epilogue_state(u1, id)[id]);
                    assert(set_unregistered(u2[id]) == u1[id]);
                }
            },
            Command::Nick => {
                if mv.params.len() == 0 || spec_nick_used(u0, mv.params[0]) {
                } else {
                    let u1 = u0.insert(id, set_nickname(u, mv.params[0]));
                    assert(should_register(u1[id]));
                    assert(u2[id] == epilogue_state(u1, id)[id]);
                    assert(set_unregistered(u2[id]) == u1[id]);
                }
            },
            _ => {},
        }
    }
}

/// The dispatcher proper: one command against the current registries.
#[verifier::rlimit(100)]
fn dispatch_core(
    message: Message,
    users: &mut UserTable,
    channels: &mut ChannelTable,
    user_id: u128,
    server_prefix: &str,
) -> (r: (Vec<Delivery>, CommandResponse))
    requires
        users_of(*old(users)).dom().contains(user_id),
        registries_wf(users_of(*old(users)), channels_of(*old(channels))),
    ensures
        registries_wf(users_of(*final(users)), channels_of(*final(channels))),
        dispatch_post(
            users_of(*old(users)),
            channels_of(*old(channels)),
            users_of(*final(users)),
            channels_of(*final(channels)),
            devs(r.0@),
            r.1,
            user_id,
            message@,
            server_prefix@,
        ),
{
    let ghost u0m = users_of(*users);
    let ghost c0m = channels_of(*channels);
    let ghost mv = message@;
    let u0 = match get_user(users, user_id) {
        Some(u) => u,
        None => {
            proof {
                assert(false);
            }
            return (Vec::new(), CommandResponse::Continue);
        },
    };
    proof {
        assert(u0m[user_id].id == user_id);
    }
    // Rewrite the prefix so routed lines carry the originator's identity.
    let mut message = message;
    message.prefix = u0.prefix();
    let ghost m = message@;
    proof {
        assert(m == with_prefix(mv, spec_user_prefix(u0m[user_id])));
    }
    let cmd = message.command;
    // An unregistered participant may only register or quit.
    if !u0.is_registered && !(cmd == Command::User || cmd == Command::Nick || cmd
        == Command::Quit) {
        let out = self_reply(
            users,
            user_id,
            server_prefix,
            ReplyCode::ERR_NOTREGISTERED,
            "You have not registered.",
        );
        return (out, CommandResponse::Continue);
    }
    match cmd {
        Command::User => {
            if message.params.len() == 0 {
                let out = self_reply(
                    users,
                    user_id,
                    server_prefix,
                    ReplyCode::ERR_NONICKNAMEGIVEN,
                    "No nickname was given.",
                );
                return (out, CommandResponse::Continue);
            }
            if u0.is_registered {
                let out = self_reply(
                    users,
                    user_id,
                    server_prefix,
                    ReplyCode::ERR_ALREADYREGISTRED,
                    "Cannot send USER message since the client is already registered.",
                );
                return (out, CommandResponse::Continue);
            }
            let username = message.params[0].clone();
            let mut u1 = u0;
            u1.username = Some(username);
            let ghost u1v = u1@;
            put_user(users, user_id, u1);
            proof {
                assert(u1v == set_username(u0m[user_id], mv.params[0]));
                lemma_wf_insert(u0m, c0m, user_id, u1v);
                lemma_wf_epilogue(users_of(*users), c0m, user_id);
            }
            let out = run_epilogue(users, user_id);
            (out, CommandResponse::Continue)
        },
        Command::Nick => {
            if message.params.len() == 0 {
                let out = self_reply(
                    users,
                    user_id,
                    server_prefix,
                    ReplyCode::ERR_NONICKNAMEGIVEN,
                    "No nickname was given.",
                );
                return (out, CommandResponse::Continue);
            }
            let nickname = message.params[0].clone();
            if nickname_in_use(nickname.as_str(), users) {
                let out = self_reply(
                    users,
                    user_id,
                    server_prefix,
                    ReplyCode::ERR_NICKNAMEINUSE,
                    "Nickname is already in use.",
                );
                return (out, CommandResponse::Continue);
            }
            let was_registered = u0.is_registered;
            let mut u1 = u0;
            u1.nickname = Some(nickname);
            let ghost u1v = u1@;
            put_user(users, user_id, u1);
            proof {
                assert(u1v == set_nickname(u0m[user_id], mv.params[0]));
                if u0m[user_id].is_registered {
                    assert(u0m[user_id].username is Some);
                }
                lemma_wf_insert(u0m, c0m, user_id, u1v);
            }
            if was_registered {
                // A registered participant's nickname change is announced to
                // everyone, the originator included.
                let out = crate::router::broadcast_to_all(&message, users);
                proof {
                    if !params_wire_ok(mv.params) {
                        assert(devs(out@) =~= Seq::<DeliveryView>::empty());
                    }
                }
                (out, CommandResponse::Continue)
            } else {
                proof {
                    lemma_wf_epilogue(users_of(*users), c0m, user_id);
                }
                let out = run_epilogue(users, user_id);
                (out, CommandResponse::Continue)
            }
        },
        Command::Away => {
            let was_away = u0.is_away;
            let mut u1 = u0;
            u1.is_away = !was_away;
            let ghost u1v = u1@;
            put_user(users, user_id, u1);
            proof {
                assert(u1v == toggle_away(u0m[user_id]));
                if u0m[user_id].is_registered {
                    assert(u0m[user_id].username is Some);
                }
                lemma_wf_insert(u0m, c0m, user_id, u1v);
            }
            let out = if !was_away {
                self_reply(users, user_id, server_prefix, ReplyCode::RPL_NOWAWAY, "You are now away.")
            } else {
                self_reply(
                    users,
                    user_id,
                    server_prefix,
                    ReplyCode::RPL_UNAWAY,
                    "You are no longer away.",
                )
            };
            (out, CommandResponse::Continue)
        },
        Command::PrivMsg => {
            if message.params.len() != 2 {
                let out = self_reply(
                    users,
                    user_id,
                    server_prefix,
                    ReplyCode::ERR_NORECIPIENT,
                    "No recipient for the message was given.",
                );
                return (out, CommandResponse::Continue);
            }
            let recipient = message.params[0].clone();
            let rn = recipient.as_str().unicode_len();
            let is_chan = rn > 0 && recipient.as_str().get_char(0) == '#';
            if !is_chan {
                match get_nickname_id(recipient.as_str(), users) {
                    Some(rid) => {
                        proof {
                            let ow = nick_owner(u0m, recipient@);
                            assert(u0m.dom().contains(ow) && u0m[ow].nickname == Some(
                                recipient@,
                            ));
                            if ow != rid {
                                assert(u0m[ow].nickname != u0m[rid].nickname);
                            }
                        }
                        let ru = match get_user(users, rid) {
                            Some(x) => x,
                            None => {
                                proof {
                                    assert(false);
                                }
                                return (Vec::new(), CommandResponse::Continue);
                            },
                        };
                        let mut out: Vec<Delivery> = Vec::new();
                        if ru.is_away {
                            let resp = Response::new(
                                server_prefix,
                                ReplyCode::RPL_AWAY,
                                &[recipient.as_str(), "The recipient is marked as away."],
                            );
                            proof {
                                assert(resp@.params =~= seq![
                                    recipient@,
                                    "The recipient is marked as away."@,
                                ]);
                                lemma_space_count_pair(
                                    recipient@,
                                    "The recipient is marked as away."@,
                                );
                                assert(has_space("The recipient is marked as away."@)) by {
                                    reveal_strlit("The recipient is marked as away.");
                                    assert("The recipient is marked as away."@[3] == ' ');
                                }
                            }
                            match send_to_user(&resp, users, user_id) {
                                Some(d) => {
                                    out.push(d);
                                    proof {
                                        lemma_devs_push(Seq::<Delivery>::empty(), d);
                                        assert(devs(Seq::<Delivery>::empty()) =~= Seq::<
                                            DeliveryView,
                                        >::empty());
                                        assert(devs(out@) =~= away_devs(
                                            user_id,
                                            server_prefix@,
                                            recipient@,
                                        ));
                                    }
                                },
                                None => {
                                    proof {
                                        assert(has_space(recipient@));
                                        assert(devs(out@) =~= away_devs(
                                            user_id,
                                            server_prefix@,
                                            recipient@,
                                        ));
                                    }
                                },
                            }
                        }
                        let ghost mid = devs(out@);
                        match send_to_user(&message, users, rid) {
                            Some(d) => {
                                let ghost pre = out@;
                                out.push(d);
                                proof {
                                    lemma_devs_push(pre, d);
                                    assert(devs(out@) =~= mid + one_msg_devs(m, rid));
                                }
                            },
                            None => {
                                proof {
                                    assert(devs(out@) =~= mid + one_msg_devs(m, rid));
                                }
                            },
                        }
                        proof {
                            if !u0m[nick_owner(u0m, recipient@)].is_away {
                                assert(mid =~= Seq::<DeliveryView>::empty());
                            }
                        }
                        (out, CommandResponse::Continue)
                    },
                    None => {
                        let out = self_reply(
                            users,
                            user_id,
                            server_prefix,
                            ReplyCode::ERR_NOSUCHNICK,
                            "The given nick was not found.",
                        );
                        (out, CommandResponse::Continue)
                    },
                }
            } else {
                if !crate::registry::channel_exists(channels, recipient.as_str()) {
                    let out = self_reply(
                        users,
                        user_id,
                        server_prefix,
                        ReplyCode::ERR_NOSUCHCHANNEL,
                        "The given channel was not found.",
                    );
                    return (out, CommandResponse::Continue);
                }
                let in_chan = match &u0.channel {
                    Some(c) => crate::codec::str_eq(c.as_str(), recipient.as_str()),
                    None => false,
                };
                if !in_chan {
                    let out = self_reply(
                        users,
                        user_id,
                        server_prefix,
                        ReplyCode::ERR_CANNOTSENDTOCHAN,
                        "You are not in that channel.",
                    );
                    return (out, CommandResponse::Continue);
                }
                let chan = crate::registry::Channel::new(recipient.as_str());
                let out = crate::router::send_to_channel(&message, users, &chan, user_id);
                proof {
                    if !params_wire_ok(mv.params) {
                        assert(devs(out@) =~= Seq::<DeliveryView>::empty());
                    }
                }
                (out, CommandResponse::Continue)
            }
        },
        Command::Quit => {
            let ack = Message::new(
                Some(server_prefix.to_owned()),
                Command::Error,
                &["User disconnected."],
            );
            proof {
                assert(ack@.params =~= seq!["User disconnected."@]);
                lemma_single_param_ok("User disconnected."@);
            }
            let mut out: Vec<Delivery> = Vec::new();
            match send_to_user(&ack, users, user_id) {
                Some(d) => {
                    out.push(d);
                    proof {
                        lemma_devs_push(Seq::<Delivery>::empty(), d);
                        assert(devs(Seq::<Delivery>::empty()) =~= Seq::<DeliveryView>::empty());
                        assert(devs(out@)[0] == ack_dev(user_id, server_prefix@));
                    }
                },
                None => {
                    proof {
                        assert(false);
                    }
                },
            }
            if u0.is_registered {
                let mut rest = crate::router::broadcast_message(&message, users, user_id);
                let ghost restv = rest@;
                let ghost ackv = out@;
                out.append(&mut rest);
                proof {
                    assert(devs(out@) =~= devs(ackv) + devs(restv)) by {
                        assert(out@ == ackv + restv);
                        assert forall|i: int| 0 <= i < out@.len() implies devs(out@)[i] == (devs(
                            ackv,
                        ) + devs(restv))[i] by {
                            if i < ackv.len() {
                                assert(out@[i] == ackv[i]);
                            } else {
                                assert(out@[i] == restv[i - ackv.len()]);
                            }
                        }
                    }
                    assert(devs(out@).skip(1) =~= devs(restv));
                    if !params_wire_ok(mv.params) {
                        assert(devs(restv) =~= Seq::<DeliveryView>::empty());
                    }
                }
            }
            (out, CommandResponse::Quit)
        },
        Command::Unknown => {
            let out = self_reply(
                users,
                user_id,
                server_prefix,
                ReplyCode::ERR_UNKNOWNCOMMAND,
                "Unknown command.",
            );
            (out, CommandResponse::Continue)
        },
        Command::Join => {
            if message.params.len() == 0 {
                let out = self_reply(
                    users,
                    user_id,
                    server_prefix,
                    ReplyCode::ERR_NEEDMOREPARAMS,
                    "Specify which channel to join.",
                );
                return (out, CommandResponse::Continue);
            }
            let channel_name = message.params[0].clone();
            ensure_channel(channels, channel_name.as_str());
            proof {
                if !c0m.dom().contains(channel_name@) {
                    lemma_wf_channel_insert(u0m, c0m, channel_name@);
                }
            }
            let mut u1 = u0;
            u1.channel = Some(channel_name.clone());
            let ghost u1v = u1@;
            put_user(users, user_id, u1);
            proof {
                assert(u1v == set_channel(u0m[user_id], Some(mv.params[0])));
                if u0m[user_id].is_registered {
                    assert(u0m[user_id].username is Some);
                }
                lemma_wf_insert(u0m, channels_of(*channels), user_id, u1v);
            }
            let chan = crate::registry::Channel::new(channel_name.as_str());
            let out = crate::router::send_to_channel(&message, users, &chan, user_id);
            proof {
                if !params_wire_ok(mv.params) {
                    assert(devs(out@) =~= Seq::<DeliveryView>::empty());
                }
            }
            (out, CommandResponse::Continue)
        },
        Command::Part => {
            if message.params.len() == 0 {
                let out = self_reply(
                    users,
                    user_id,
                    server_prefix,
                    ReplyCode::ERR_NEEDMOREPARAMS,
                    "Specify which channel to leave.",
                );
                return (out, CommandResponse::Continue);
            }
            let channel_name = message.params[0].clone();
            if !crate::registry::channel_exists(channels, channel_name.as_str()) {
                let out = self_reply(
                    users,
                    user_id,
                    server_prefix,
                    ReplyCode::ERR_NOSUCHCHANNEL,
                    "The given channel was not found.",
                );
                return (out, CommandResponse::Continue);
            }
            let in_chan = match &u0.channel {
                Some(c) => crate::codec::str_eq(c.as_str(), channel_name.as_str()),
                None => false,
            };
            if !in_chan {
                let out = self_reply(
                    users,
                    user_id,
                    server_prefix,
                    ReplyCode::ERR_NOTONCHANNEL,
                    "You are not in that channel.",
                );
                return (out, CommandResponse::Continue);
            }
            let mut u1 = u0;
            u1.channel = None;
            let ghost u1v = u1@;
            put_user(users, user_id, u1);
            proof {
                assert(u1v == set_channel(u0m[user_id], None));
                if u0m[user_id].is_registered {
                    assert(u0m[user_id].username is Some);
                }
                lemma_wf_insert(u0m, c0m, user_id, u1v);
            }
            let chan = crate::registry::Channel::new(channel_name.as_str());
            let out = crate::router::send_to_channel(&message, users, &chan, user_id);
            proof {
                if !params_wire_ok(mv.params) {
                    assert(devs(out@) =~= Seq::<DeliveryView>::empty());
                }
            }
            (out, CommandResponse::Continue)
        },
        Command::Kick => {
            if message.params.len() == 0 {
                let out = self_reply(
                    users,
                    user_id,
                    server_prefix,
                    ReplyCode::ERR_NEEDMOREPARAMS,
                    "Specify a channel and user to kick.",
                );
                return (out, CommandResponse::Continue);
            }
            if message.params.len() == 1 {
                let out = self_reply(
                    users,
                    user_id,
                    server_prefix,
                    ReplyCode::ERR_NEEDMOREPARAMS,
                    "Specify a user to kick.",
                );
                return (out, CommandResponse::Continue);
            }
            let channel_name = message.params[0].clone();
            let target_user = message.params[1].clone();
            if !crate::registry::channel_exists(channels, channel_name.as_str()) {
                let out = self_reply(
                    users,
                    user_id,
                    server_prefix,
                    ReplyCode::ERR_NOSUCHCHANNEL,
                    "The given channel was not found.",
                );
                return (out, CommandResponse::Continue);
            }
            let kicker_in = match &u0.channel {
                Some(c) => crate::codec::str_eq(c.as_str(), channel_name.as_str()),
                None => false,
            };
            if !kicker_in {
                let out = self_reply(
                    users,
                    user_id,
                    server_prefix,
                    ReplyCode::ERR_NOTONCHANNEL,
                    "You are not in that channel.",
                );
                return (out, CommandResponse::Continue);
            }
            let target_id = match get_nickname_id(target_user.as_str(), users) {
                Some(tid) => tid,
                None => {
                    let out = self_reply(
                        users,
                        user_id,
                        server_prefix,
                        ReplyCode::ERR_NOSUCHNICK,
                        "The given user was not found.",
                    );
                    return (out, CommandResponse::Continue);
                },
            };
            proof {
                let ow = nick_owner(u0m, target_user@);
                assert(u0m.dom().contains(ow) && u0m[ow].nickname == Some(target_user@));
                if ow != target_id {
                    assert(u0m[ow].nickname != u0m[target_id].nickname);
                }
            }
            let tu = match get_user(users, target_id) {
                Some(x) => x,
                None => {
                    proof {
                        assert(false);
                    }
                    return (Vec::new(), CommandResponse::Continue);
                },
            };
            let target_in = match &tu.channel {
                Some(c) => crate::codec::str_eq(c.as_str(), channel_name.as_str()),
                None => false,
            };
            if !target_in {
                let out = self_reply(
                    users,
                    user_id,
                    server_prefix,
                    ReplyCode::ERR_USERNOTINCHANNEL,
                    "That user is not in the channel.",
                );
                return (out, CommandResponse::Continue);
            }
            // Fan out before removing, so the kicked participant also sees
            // the notice.
            let chan = crate::registry::Channel::new(channel_name.as_str());
            let out = crate::router::send_to_channel(&message, users, &chan, user_id);
            let mut t1 = tu;
            t1.channel = None;
            let ghost t1v = t1@;
            put_user(users, target_id, t1);
            proof {
                assert(u0m[target_id].id == target_id);
                assert(t1v == set_channel(u0m[target_id], None));
                if u0m[target_id].is_registered {
                    assert(u0m[target_id].username is Some);
                }
                lemma_wf_insert(u0m, c0m, target_id, t1v);
                if !params_wire_ok(mv.params) {
                    assert(devs(out@) =~= Seq::<DeliveryView>::empty());
                }
            }
            (out, CommandResponse::Continue)
        },
        Command::List => {
            let chs = dm_channels_entries(channels);
            let ghost chsv = chs@;
            let ghost csv: Seq<Seq<char>> = chsv.map(|_i: int, e: (String, crate::registry::Channel)| e.0@);
            let cn = chs.len();
            let mut out: Vec<Delivery> = Vec::new();
            let mut i: usize = 0;
            proof {
                assert(devs(out@) =~= list_devs(u0m, server_prefix@, user_id, csv.take(0)));
            }
            while i < cn
                invariant
                    cn == chsv.len(),
                    0 <= i <= cn,
                    chsv == chs@,
                    csv == chsv.map(|_i: int, e: (String, crate::registry::Channel)| e.0@),
                    channel_entries_match(chsv, c0m),
                    c0m == channels_of(*channels),
                    u0m == users_of(*users),
                    users_of(*users).dom().contains(user_id),
                    devs(out@) =~= list_devs(u0m, server_prefix@, user_id, csv.take(i as int)),
                decreases cn - i,
            {
                let count = channel_member_count(users, chs[i].0.as_str());
                let count_s = usize_to_string(count);
                let resp = Response::new(
                    server_prefix,
                    ReplyCode::RPL_LIST,
                    &[chs[i].0.as_str(), count_s.as_str()],
                );
                proof {
                    assert(resp@.params =~= seq![chsv[i as int].0@, count_s@]);
                    lemma_dec_no_space(spec_members(u0m, chsv[i as int].0@).len());
                    lemma_pair_param_ok(chsv[i as int].0@, count_s@);
                }
                match send_to_user(&resp, users, user_id) {
                    Some(d) => {
                        let ghost pre = out@;
                        out.push(d);
                        proof {
                            lemma_devs_push(pre, d);
                            assert(csv.take(i + 1 as int) =~= csv.take(i as int).push(
                                csv[i as int],
                            ));
                            assert(csv[i as int] == chsv[i as int].0@);
                            assert(d@ == list_dev(u0m, server_prefix@, user_id, csv[i as int]));
                            assert(list_devs(u0m, server_prefix@, user_id, csv.take(i + 1 as int))
                                =~= list_devs(u0m, server_prefix@, user_id, csv.take(i as int)).push(
                                list_dev(u0m, server_prefix@, user_id, csv[i as int]),
                            ));
                        }
                    },
                    None => {
                        proof {
                            assert(false);
                        }
                    },
                }
                i += 1;
            }
            let endresp = Response::new(server_prefix, ReplyCode::RPL_LISTEND, &["End of LIST"]);
            proof {
                assert(endresp@.params =~= seq!["End of LIST"@]);
                lemma_single_param_ok("End of LIST"@);
            }
            match send_to_user(&endresp, users, user_id) {
                Some(d) => {
                    let ghost pre = out@;
                    out.push(d);
                    proof {
                        lemma_devs_push(pre, d);
                        assert(csv.take(cn as int) =~= csv);
                        assert(csv.no_duplicates()) by {
                            assert forall|a: int, b: int|
                                0 <= a < b < csv.len() implies csv[a] != csv[b] by {
                                assert(chsv[a].0@ != chsv[b].0@);
                            }
                        }
                        assert(forall|n: Seq<char>| #[trigger]
                            csv.contains(n) <==> c0m.dom().contains(n)) by {
                            assert forall|n: Seq<char>| #[trigger] csv.contains(n) implies
                                c0m.dom().contains(n) by {
                                let a = choose|a: int| 0 <= a < csv.len() && csv[a] == n;
                                assert(chsv[a].0@ == n);
                            }
                            assert forall|n: Seq<char>| c0m.dom().contains(n) implies #[trigger]
                                csv.contains(n) by {
                                let a = choose|a: int| 0 <= a < chsv.len() && chsv[a].0@ == n;
                                assert(csv[a] == n);
                            }
                        }
                        assert(devs(out@) == list_devs(u0m, server_prefix@, user_id, csv).push(
                            resp_dev1(
                                user_id,
                                server_prefix@,
                                ReplyCode::RPL_LISTEND,
                                "End of LIST"@,
                            ),
                        ));
                        assert(list_post(devs(out@), u0m, c0m, user_id, server_prefix@));
                    }
                },
                None => {
                    proof {
                        assert(false);
                    }
                },
            }
            (out, CommandResponse::Continue)
        },
        Command::Ping => {
            let pong = Message::new(
                Some(server_prefix.to_owned()),
                Command::Pong,
                &[server_prefix],
            );
            proof {
                assert(pong@.params =~= seq![server_prefix@]);
                lemma_single_param_ok(server_prefix@);
            }
            let mut out: Vec<Delivery> = Vec::new();
            match send_to_user(&pong, users, user_id) {
                Some(d) => {
                    out.push(d);
                    proof {
                        lemma_devs_push(Seq::<Delivery>::empty(), d);
                        assert(devs(Seq::<Delivery>::empty()) =~= Seq::<DeliveryView>::empty());
                        assert(devs(out@) =~= seq![pong_dev(user_id, server_prefix@)]);
                    }
                },
                None => {
                    proof {
                        assert(false);
                    }
                },
            }
            (out, CommandResponse::Continue)
        },
        Command::Pong | Command::Error => {
            proof {
                assert(devs(Seq::<Delivery>::empty()) =~= Seq::<DeliveryView>::empty());
            }
            (Vec::new(), CommandResponse::Continue)
        },
    }
}

/// Interpret one parsed command: update the registries, compute the
/// deliveries to write, and say whether the session goes on.
pub fn handle_message(
    message: Message,
    users: &mut UserTable,
    channels: &mut ChannelTable,
    user_id: u128,
    server_prefix: &str,
) -> (r: (Vec<Delivery>, CommandResponse))
    requires
        users_of(*old(users)).dom().contains(user_id),
        registries_wf(users_of(*old(users)), channels_of(*old(channels))),
    ensures
        registries_wf(users_of(*final(users)), channels_of(*final(channels))),
        dispatch_post(
            users_of(*old(users)),
            channels_of(*old(channels)),
            users_of(*final(users)),
            channels_of(*final(channels)),
            devs(r.0@),
            r.1,
            user_id,
            message@,
            server_prefix@,
        ),
        users_of(*final(users)).dom() == users_of(*old(users)).dom(),
        // Registration is monotone: nobody is ever unregistered.
        forall|k: u128|
            users_of(*old(users)).dom().contains(k) && (#[trigger] users_of(*old(users))[k]).is_registered
                ==> users_of(*final(users))[k].is_registered,
        // Channels are never removed.
        forall|n: Seq<char>|
            channels_of(*old(channels)).dom().contains(n) ==> #[trigger] channels_of(
                *final(channels),
            ).dom().contains(n),
        // Before registration, any command outside USER, NICK and QUIT is
        // answered with the not-registered reply and changes nothing.
        (!users_of(*old(users))[user_id].is_registered && !is_reg_cmd(message@.command)) ==> {
            &&& users_of(*final(users)) == users_of(*old(users))
            &&& channels_of(*final(channels)) == channels_of(*old(channels))
            &&& devs(r.0@) == seq![
                resp_dev1(
                    user_id,
                    server_prefix@,
                    ReplyCode::ERR_NOTREGISTERED,
                    "You have not registered."@,
                ),
            ]
            &&& r.1 == CommandResponse::Continue
        },
{
    let ghost u0m = users_of(*users);
    let ghost c0m = channels_of(*channels);
    let ghost mv = message@;
    let r = dispatch_core(message, users, channels, user_id, server_prefix);
    proof {
        lemma_dispatch_frame(
            u0m,
            c0m,
            users_of(*users),
            channels_of(*channels),
            devs(r.0@),
            r.1,
            user_id,
            mv,
            server_prefix@,
        );
    }
    r
}

/// One session iteration on a decoded line: parse it, answer a parse
/// failure with the unknown-command reply, and dispatch otherwise.
pub fn session_step(
    raw: &str,
    users: &mut UserTable,
    channels: &mut ChannelTable,
    user_id: u128,
    server_prefix: &str,
) -> (r: (Vec<Delivery>, CommandResponse))
    requires
        users_of(*old(users)).dom().contains(user_id),
        registries_wf(users_of(*old(users)), channels_of(*old(channels))),
    ensures
        registries_wf(users_of(*final(users)), channels_of(*final(channels))),
        users_of(*final(users)).dom() == users_of(*old(users)).dom(),
        spec_parse(raw@) is Err ==> {
            &&& users_of(*final(users)) == users_of(*old(users))
            &&& channels_of(*final(channels)) == channels_of(*old(channels))
            &&& devs(r.0@) == seq![
                resp_dev1(
                    user_id,
                    server_prefix@,
                    ReplyCode::ERR_UNKNOWNCOMMAND,
                    "Input string does not contain a command."@,
                ),
            ]
            &&& r.1 == CommandResponse::Continue
        },
        spec_parse(raw@) is Ok ==> dispatch_post(
            users_of(*old(users)),
            channels_of(*old(channels)),
            users_of(*final(users)),
            channels_of(*final(channels)),
            devs(r.0@),
            r.1,
            user_id,
            spec_parse(raw@)->Ok_0,
            server_prefix@,
        ),
        forall|k: u128|
            users_of(*old(users)).dom().contains(k) && (#[trigger] users_of(*old(users))[k]).is_registered
                ==> users_of(*final(users))[k].is_registered,
{
    match Message::from(raw) {
        Ok(msg) => handle_message(msg, users, channels, user_id, server_prefix),
        Err(e) => {
            let out = self_reply(
                users,
                user_id,
                server_prefix,
                ReplyCode::ERR_UNKNOWNCOMMAND,
                e.message(),
            );
            (out, CommandResponse::Continue)
        },
    }
}

} // verus!
