//! Wire codec: parsing one inbound protocol line into a structured command,
//! and serializing structured messages and numeric replies back into lines.
#![allow(non_camel_case_types)]

use vstd::prelude::*;

verus! {

/// The fixed set of keywords the relay understands. Any other command token
/// parses as `Unknown`; the dispatcher, not the parser, answers it.
#[derive(Clone, Copy, Debug, PartialEq, Eq, Structural)]
pub enum Command {
    User,
    Nick,
    Join,
    Kick,
    Part,
    PrivMsg,
    List,
    Away,
    Quit,
    Error,
    Ping,
    Pong,
    Unknown,
}

/// RFC 1459 numeric reply codes used by the relay.
#[derive(Clone, Copy, Debug, PartialEq, Eq, Structural)]
pub enum ReplyCode {
    RPL_WELCOME,
    RPL_AWAY,
    RPL_UNAWAY,
    RPL_NOWAWAY,
    RPL_LIST,
    RPL_LISTEND,
    ERR_NOSUCHNICK,
    ERR_NOSUCHCHANNEL,
    ERR_CANNOTSENDTOCHAN,
    ERR_NORECIPIENT,
    ERR_UNKNOWNCOMMAND,
    ERR_NONICKNAMEGIVEN,
    ERR_NICKNAMEINUSE,
    ERR_USERNOTINCHANNEL,
    ERR_NOTONCHANNEL,
    ERR_NOTREGISTERED,
    ERR_NEEDMOREPARAMS,
    ERR_ALREADYREGISTRED,
}

/// The three-digit decimal string of a reply code.
pub open spec fn spec_code_digits(c: ReplyCode) -> Seq<char> {
    match c {
        ReplyCode::RPL_WELCOME => "001"@,
        ReplyCode::RPL_AWAY => "301"@,
        ReplyCode::RPL_UNAWAY => "305"@,
        ReplyCode::RPL_NOWAWAY => "306"@,
        ReplyCode::RPL_LIST => "322"@,
        ReplyCode::RPL_LISTEND => "323"@,
        ReplyCode::ERR_NOSUCHNICK => "401"@,
        ReplyCode::ERR_NOSUCHCHANNEL => "403"@,
        ReplyCode::ERR_CANNOTSENDTOCHAN => "404"@,
        ReplyCode::ERR_NORECIPIENT => "411"@,
        ReplyCode::ERR_UNKNOWNCOMMAND => "421"@,
        ReplyCode::ERR_NONICKNAMEGIVEN => "431"@,
        ReplyCode::ERR_NICKNAMEINUSE => "433"@,
        ReplyCode::ERR_USERNOTINCHANNEL => "441"@,
        ReplyCode::ERR_NOTONCHANNEL => "442"@,
        ReplyCode::ERR_NOTREGISTERED => "451"@,
        ReplyCode::ERR_NEEDMOREPARAMS => "461"@,
        ReplyCode::ERR_ALREADYREGISTRED => "462"@,
    }
}

impl ReplyCode {
    /// The three-digit zero-padded code that a numeric reply line carries.
    pub fn digits(self) -> (r: &'static str)
        ensures
            r@ == spec_code_digits(self),
    {
        match self {
            ReplyCode::RPL_WELCOME => "001",
            ReplyCode::RPL_AWAY => "301",
            ReplyCode::RPL_UNAWAY => "305",
            ReplyCode::RPL_NOWAWAY => "306",
            ReplyCode::RPL_LIST => "322",
            ReplyCode::RPL_LISTEND => "323",
            ReplyCode::ERR_NOSUCHNICK => "401",
            ReplyCode::ERR_NOSUCHCHANNEL => "403",
            ReplyCode::ERR_CANNOTSENDTOCHAN => "404",
            ReplyCode::ERR_NORECIPIENT => "411",
            ReplyCode::ERR_UNKNOWNCOMMAND => "421",
            ReplyCode::ERR_NONICKNAMEGIVEN => "431",
            ReplyCode::ERR_NICKNAMEINUSE => "433",
            ReplyCode::ERR_USERNOTINCHANNEL => "441",
            ReplyCode::ERR_NOTONCHANNEL => "442",
            ReplyCode::ERR_NOTREGISTERED => "451",
            ReplyCode::ERR_NEEDMOREPARAMS => "461",
            ReplyCode::ERR_ALREADYREGISTRED => "462",
        }
    }
}

/// ASCII whitespace, the characters the parser trims from a line's end.
pub open spec fn is_wsp(c: char) -> bool {
    c == ' ' || c == '\t' || c == '\n' || c == '\r' || c == '\u{b}' || c == '\u{c}'
}

/// ASCII upper-casing of one character; command matching is ASCII
/// case-insensitive.
pub open spec fn upper_char(c: char) -> char {
    if 'a' <= c && c <= 'z' {
        ((c as u8) - 32) as char
    } else {
        c
    }
}

/// ASCII upper-casing of a character sequence.
pub open spec fn spec_upper(s: Seq<char>) -> Seq<char> {
    s.map(|_i: int, c: char| upper_char(c))
}

fn exec_is_wsp(c: char) -> (r: bool)
    ensures
        r == is_wsp(c),
{
    c == ' ' || c == '\t' || c == '\n' || c == '\r' || c == '\u{b}' || c == '\u{c}'
}

fn exec_upper_char(c: char) -> (r: char)
    ensures
        r == upper_char(c),
{
    if 'a' <= c && c <= 'z' {
        ((c as u8) - 32) as char
    } else {
        c
    }
}

/// Whether two strings hold the same characters.
pub fn str_eq(a: &str, b: &str) -> (r: bool)
    ensures
        r == (a@ == b@),
{
    let n = a.unicode_len();
    if n != b.unicode_len() {
        return false;
    }
    let mut i: usize = 0;
    while i < n
        invariant
            n == a@.len(),
            n == b@.len(),
            0 <= i <= n,
            forall|j: int| 0 <= j < i ==> a@[j] == b@[j],
        decreases n - i,
    {
        if a.get_char(i) != b.get_char(i) {
            return false;
        }
        i += 1;
    }
    assert(a@ =~= b@);
    true
}

/// Whether `s` ASCII-upper-cases to exactly `t`.
fn eq_upper(s: &str, t: &str) -> (r: bool)
    ensures
        r == (spec_upper(s@) == t@),
{
    let n = s.unicode_len();
    if n != t.unicode_len() {
        assert(spec_upper(s@).len() == s@.len());
        return false;
    }
    let mut i: usize = 0;
    while i < n
        invariant
            n == s@.len(),
            n == t@.len(),
            i <= n,
            forall|j: int| 0 <= j < i ==> spec_upper(s@)[j] == t@[j],
        decreases n - i,
    {
        if exec_upper_char(s.get_char(i)) != t.get_char(i) {
            assert(spec_upper(s@)[i as int] != t@[i as int]);
            return false;
        }
        i += 1;
    }
    assert(spec_upper(s@) =~= t@);
    true
}

impl Command {
    /// Map a raw command token to its keyword, ASCII case-insensitively.
    /// Unrecognized tokens become `Unknown` so the dispatcher can send the
    /// error reply itself.
    pub fn from_str(input: &str) -> (r: Command)
        ensures
            r == spec_command_of(input@),
    {
        if eq_upper(input, "USER") {
            Command::User
        } else if eq_upper(input, "NICK") {
            Command::Nick
        } else if eq_upper(input, "JOIN") {
            Command::Join
        } else if eq_upper(input, "KICK") {
            Command::Kick
        } else if eq_upper(input, "PART") {
            Command::Part
        } else if eq_upper(input, "PRIVMSG") {
            Command::PrivMsg
        } else if eq_upper(input, "LIST") {
            Command::List
        } else if eq_upper(input, "AWAY") {
            Command::Away
        } else if eq_upper(input, "QUIT") {
            Command::Quit
        } else if eq_upper(input, "PING") {
            Command::Ping
        } else if eq_upper(input, "PONG") {
            Command::Pong
        } else if eq_upper(input, "ERROR") {
            Command::Error
        } else {
            Command::Unknown
        }
    }
}

/// Which keyword a raw command token denotes, ASCII case-insensitively.
pub open spec fn spec_command_of(w: Seq<char>) -> Command {
    let u = spec_upper(w);
    if u == "USER"@ {
        Command::User
    } else if u == "NICK"@ {
        Command::Nick
    } else if u == "JOIN"@ {
        Command::Join
    } else if u == "KICK"@ {
        Command::Kick
    } else if u == "PART"@ {
        Command::Part
    } else if u == "PRIVMSG"@ {
        Command::PrivMsg
    } else if u == "LIST"@ {
        Command::List
    } else if u == "AWAY"@ {
        Command::Away
    } else if u == "QUIT"@ {
        Command::Quit
    } else if u == "PING"@ {
        Command::Ping
    } else if u == "PONG"@ {
        Command::Pong
    } else if u == "ERROR"@ {
        Command::Error
    } else {
        Command::Unknown
    }
}

/// The serialized name of a command: its keyword in upper case.
pub open spec fn spec_cmd_name(c: Command) -> Seq<char> {
    match c {
        Command::User => "USER"@,
        Command::Nick => "NICK"@,
        Command::Join => "JOIN"@,
        Command::Kick => "KICK"@,
        Command::Part => "PART"@,
        Command::PrivMsg => "PRIVMSG"@,
        Command::List => "LIST"@,
        Command::Away => "AWAY"@,
        Command::Quit => "QUIT"@,
        Command::Error => "ERROR"@,
        Command::Ping => "PING"@,
        Command::Pong => "PONG"@,
        Command::Unknown => "UNKNOWN"@,
    }
}

/// What is left of `raw` once trailing whitespace is removed.
pub open spec fn spec_trim_end(s: Seq<char>) -> Seq<char>
    decreases s.len(),
{
    if s.len() == 0 {
        s
    } else if is_wsp(s.last()) {
        spec_trim_end(s.drop_last())
    } else {
        s
    }
}

/// Index of the first space in `s`, or `s.len()` if there is none.
pub open spec fn first_space(s: Seq<char>) -> int
    decreases s.len(),
{
    if s.len() == 0 {
        0
    } else if s[0] == ' ' {
        0
    } else {
        1 + first_space(s.drop_first())
    }
}

pub proof fn lemma_first_space(s: Seq<char>)
    ensures
        0 <= first_space(s) <= s.len(),
        forall|j: int| 0 <= j < first_space(s) ==> s[j] != ' ',
        first_space(s) < s.len() ==> s[first_space(s)] == ' ',
    decreases s.len(),
{
    if s.len() > 0 && s[0] != ' ' {
        lemma_first_space(s.drop_first());
        assert forall|j: int| 0 <= j < first_space(s) implies s[j] != ' ' by {
            if j > 0 {
                assert(s.drop_first()[j - 1] == s[j]);
            }
        }
    }
}

/// The subsequence of `s` before its first space; all of `s` if it has none.
pub open spec fn spec_word(s: Seq<char>) -> Seq<char> {
    s.take(first_space(s))
}

/// What follows the first space of `s`; empty if `s` has no space.
pub open spec fn spec_rest(s: Seq<char>) -> Seq<char> {
    if first_space(s) == s.len() {
        Seq::empty()
    } else {
        s.skip(first_space(s) + 1)
    }
}

/// The parameter list encoded by the tail of a line: space-separated tokens,
/// empty tokens skipped, and a token starting with `:` taking the whole
/// remainder as one trailing parameter.
pub open spec fn spec_params(s: Seq<char>) -> Seq<Seq<char>>
    decreases s.len(),
    via spec_params_dec
{
    if s.len() == 0 {
        Seq::empty()
    } else if s[0] == ':' {
        seq![s.drop_first()]
    } else {
        let w = spec_word(s);
        let r = spec_rest(s);
        if w.len() == 0 {
            spec_params(r)
        } else {
            seq![w] + spec_params(r)
        }
    }
}

#[via_fn]
proof fn spec_params_dec(s: Seq<char>) {
    lemma_first_space(s);
}

impl Command {
    /// The upper-case keyword emitted for this command on the wire.
    pub fn name(self) -> (r: &'static str)
        ensures
            r@ == spec_cmd_name(self),
    {
        match self {
            Command::User => "USER",
            Command::Nick => "NICK",
            Command::Join => "JOIN",
            Command::Kick => "KICK",
            Command::Part => "PART",
            Command::PrivMsg => "PRIVMSG",
            Command::List => "LIST",
            Command::Away => "AWAY",
            Command::Quit => "QUIT",
            Command::Error => "ERROR",
            Command::Ping => "PING",
            Command::Pong => "PONG",
            Command::Unknown => "UNKNOWN",
        }
    }
}

/// The character sequences of a list of strings.
pub open spec fn views_of(s: Seq<String>) -> Seq<Seq<char>> {
    s.map(|_i: int, p: String| p@)
}

pub proof fn lemma_views_of_push(s: Seq<String>, x: String)
    ensures
        views_of(s.push(x)) =~= views_of(s).push(x@),
{
}

/// Why a raw line failed to parse.
#[derive(Clone, Copy, Debug, PartialEq, Eq, Structural)]
pub enum ParseError {
    /// The line holds no command token.
    InvalidInput,
}

impl ParseError {
    /// The human-readable description carried by the error reply.
    pub fn message(&self) -> (r: &'static str)
        ensures
            r@ == "Input string does not contain a command."@,
    {
        "Input string does not contain a command."
    }
}

/// A structured inbound or outbound command line.
#[derive(Debug)]
pub struct Message {
    /// Optional source of the line, `nick!user@host` for participants.
    pub prefix: Option<String>,
    /// The recognized keyword.
    pub command: Command,
    /// Ordered parameters; only the last may contain spaces on the wire.
    pub params: Vec<String>,
}

/// The mathematical shape of a message: its fields as character sequences.
pub ghost struct MessageView {
    pub prefix: Option<Seq<char>>,
    pub command: Command,
    pub params: Seq<Seq<char>>,
}

impl View for Message {
    type V = MessageView;

    open spec fn view(&self) -> MessageView {
        MessageView {
            prefix: match self.prefix {
                Some(p) => Some(p@),
                None => None,
            },
            command: self.command,
            params: views_of(self.params@),
        }
    }
}

/// A numeric server reply line.
#[derive(Debug)]
pub struct Response {
    /// The server prefix the reply is sourced from.
    pub prefix: String,
    /// The three-digit reply code.
    pub code: ReplyCode,
    /// Ordered parameters, as for `Message`.
    pub params: Vec<String>,
}

/// The mathematical shape of a numeric reply.
pub ghost struct ResponseView {
    pub prefix: Seq<char>,
    pub code: ReplyCode,
    pub params: Seq<Seq<char>>,
}

impl View for Response {
    type V = ResponseView;

    open spec fn view(&self) -> ResponseView {
        ResponseView {
            prefix: self.prefix@,
            code: self.code,
            params: views_of(self.params@),
        }
    }
}

/// The result of parsing a raw line: trim trailing whitespace, take an
/// optional `:`-led prefix token, then a command token (its absence is the
/// only parse error), then the parameters.
pub open spec fn spec_parse(raw: Seq<char>) -> Result<MessageView, ParseError> {
    let t = spec_trim_end(raw);
    let (pfx, rest): (Option<Seq<char>>, Seq<char>) = if t.len() > 0 && t[0] == ':' {
        (Some(spec_word(t.drop_first())), spec_rest(t.drop_first()))
    } else {
        (None, t)
    };
    let w = spec_word(rest);
    if w.len() == 0 {
        Err(ParseError::InvalidInput)
    } else {
        Ok(
            MessageView {
                prefix: pfx,
                command: spec_command_of(w),
                params: spec_params(spec_rest(rest)),
            },
        )
    }
}

impl Message {
    /// Split off the first space-separated token, returning it and the rest
    /// of the string; a string without a space is returned whole, with an
    /// empty remainder.
    pub fn get_next_word<'a>(input: &'a str) -> (r: (&'a str, &'a str))
        ensures
            r.0@ == spec_word(input@),
            r.1@ == spec_rest(input@),
    {
        proof {
            lemma_first_space(input@);
        }
        let n = input.unicode_len();
        let mut i: usize = 0;
        while i < n && input.get_char(i) != ' '
            invariant
                n == input@.len(),
                0 <= i <= n,
                forall|j: int| 0 <= j < i ==> input@[j] != ' ',
            decreases n - i,
        {
            i += 1;
        }
        assert(i == first_space(input@));
        if i == n {
            let empty = input.substring_char(n, n);
            assert(empty@ =~= spec_rest(input@));
            assert(input@ =~= spec_word(input@));
            (input, empty)
        } else {
            let w = input.substring_char(0, i);
            let rest = input.substring_char(i + 1, n);
            assert(w@ =~= spec_word(input@));
            assert(rest@ =~= spec_rest(input@));
            (w, rest)
        }
    }

    /// Parse an IRC message from a raw input string. Returns the structured
    /// message, or `InvalidInput` when the line holds no command token.
    pub fn from(raw: &str) -> (r: Result<Message, ParseError>)
        ensures
            r matches Ok(m) ==> spec_parse(raw@) matches Ok(v) && m@ == v,
            r matches Err(e) ==> spec_parse(raw@) matches Err(v) && e == v,
    {
        let n = raw.unicode_len();
        let mut e: usize = n;
        proof {
            assert(raw@.take(n as int) =~= raw@);
        }
        while e > 0 && exec_is_wsp(raw.get_char(e - 1))
            invariant
                n == raw@.len(),
                0 <= e <= n,
                spec_trim_end(raw@) == spec_trim_end(raw@.take(e as int)),
            decreases e,
        {
            proof {
                let t = raw@.take(e as int);
                assert(t.drop_last() =~= raw@.take(e - 1));
            }
            e -= 1;
        }
        let t = raw.substring_char(0, e);
        proof {
            assert(raw@.take(n as int) =~= raw@);
            let tv = raw@.take(e as int);
            if e > 0 {
                assert(!is_wsp(tv.last()));
            }
            assert(spec_trim_end(tv) == tv);
            assert(t@ == spec_trim_end(raw@));
        }
        // Optional prefix: a leading ':' introduces a source token.
        let tn = t.unicode_len();
        let mut prefix: Option<String> = None;
        let mut rest: &str = t;
        if tn > 0 && t.get_char(0) == ':' {
            let after = t.substring_char(1, tn);
            proof {
                assert(after@ =~= t@.drop_first());
            }
            let (w, r2) = Message::get_next_word(after);
            prefix = Some(w.to_owned());
            rest = r2;
        }
        // The command token; an empty one is the only parse failure.
        let (cmdw, r3) = Message::get_next_word(rest);
        if cmdw.unicode_len() == 0 {
            return Err(ParseError::InvalidInput);
        }
        let command = Command::from_str(cmdw);
        // Remaining tokens become parameters; a ':'-led token takes the whole
        // remainder, and empty tokens between spaces are skipped.
        let ghost args0: Seq<char> = r3@;
        let mut params: Vec<String> = Vec::new();
        let mut cur: &str = r3;
        while cur.unicode_len() != 0
            invariant
                views_of(params@) + spec_params(cur@) == spec_params(args0),
            decreases cur@.len(),
        {
            let ghost pre = params@;
            let ghost curv = cur@;
            let cn = cur.unicode_len();
            if cur.get_char(0) == ':' {
                let trailing = cur.substring_char(1, cn);
                proof {
                    assert(trailing@ =~= cur@.drop_first());
                }
                params.push(trailing.to_owned());
                cur = "";
                proof {
                    reveal_strlit("");
                    assert(cur@ =~= Seq::<char>::empty());
                    lemma_views_of_push(pre, params@.last());
                    assert(spec_params(curv) =~= seq![trailing@]);
                    assert(views_of(params@) + spec_params(cur@) =~= views_of(pre) + spec_params(
                        curv,
                    ));
                }
            } else {
                proof {
                    lemma_first_space(cur@);
                }
                let (w, r4) = Message::get_next_word(cur);
                if w.unicode_len() != 0 {
                    params.push(w.to_owned());
                    proof {
                        lemma_views_of_push(pre, params@.last());
                        assert(views_of(params@) + spec_params(r4@) =~= views_of(pre)
                            + spec_params(curv));
                    }
                }
                cur = r4;
            }
        }
        proof {
            assert(views_of(params@) =~= spec_params(args0));
        }
        let m = Message { prefix, command, params };
        proof {
            assert(m@ == spec_parse(raw@)->Ok_0);
        }
        Ok(m)
    }
}

/// The character sequences of a list of string slices.
pub open spec fn str_views(s: Seq<&str>) -> Seq<Seq<char>> {
    s.map(|_i: int, p: &str| p@)
}

fn strs_to_strings(params: &[&str]) -> (r: Vec<String>)
    ensures
        views_of(r@) == str_views(params@),
{
    let n = params.len();
    let mut v: Vec<String> = Vec::new();
    let mut i: usize = 0;
    while i < n
        invariant
            n == params@.len(),
            0 <= i <= n,
            views_of(v@) =~= str_views(params@).take(i as int),
        decreases n - i,
    {
        let ghost pre = v@;
        v.push(params[i].to_owned());
        proof {
            lemma_views_of_push(pre, v@.last());
            assert(views_of(v@) =~= str_views(params@).take(i + 1 as int));
        }
        i += 1;
    }
    proof {
        assert(views_of(v@) =~= str_views(params@));
    }
    v
}

impl Message {
    /// Build a message from parts; the parameter slices are copied into
    /// owned strings.
    pub fn new(prefix: Option<String>, command: Command, params: &[&str]) -> (r: Message)
        ensures
            r@.prefix == (match prefix {
                Some(p) => Some(p@),
                None => None::<Seq<char>>,
            }),
            r@.command == command,
            r@.params == str_views(params@),
    {
        Message { prefix, command, params: strs_to_strings(params) }
    }
}

impl Response {
    /// Build a numeric reply from parts.
    pub fn new(prefix: &str, code: ReplyCode, params: &[&str]) -> (r: Response)
        ensures
            r@.prefix == prefix@,
            r@.code == code,
            r@.params == str_views(params@),
    {
        Response { prefix: prefix.to_owned(), code, params: strs_to_strings(params) }
    }
}

/// Whether a parameter contains a space, and so can only stand last on the
/// wire, introduced by `:`.
pub open spec fn has_space(w: Seq<char>) -> bool {
    exists|i: int| 0 <= i < w.len() && w[i] == ' '
}

/// How many parameters contain a space.
pub open spec fn space_count(ps: Seq<Seq<char>>) -> nat
    decreases ps.len(),
{
    if ps.len() == 0 {
        0
    } else {
        (if has_space(ps[0]) {
            1nat
        } else {
            0nat
        }) + space_count(ps.drop_first())
    }
}

/// Index of the first space-containing parameter, or `ps.len()` if none.
pub open spec fn space_param_at(ps: Seq<Seq<char>>) -> int
    decreases ps.len(),
{
    if ps.len() == 0 {
        0
    } else if has_space(ps[0]) {
        0
    } else {
        1 + space_param_at(ps.drop_first())
    }
}

/// The parameters as they are laid out on the wire: a space-containing
/// parameter that is not already last is moved to the end.
pub open spec fn wire_params(ps: Seq<Seq<char>>) -> Seq<Seq<char>> {
    let i = space_param_at(ps);
    if 0 <= i < ps.len() - 1 {
        ps.remove(i).push(ps[i])
    } else {
        ps
    }
}

/// The flattened argument part of a line: parameters separated by single
/// spaces, the final one introduced by `:`.
pub open spec fn spec_args(ps: Seq<Seq<char>>) -> Seq<char>
    decreases ps.len(),
{
    if ps.len() == 0 {
        Seq::empty()
    } else if ps.len() == 1 {
        seq![':'] + ps[0]
    } else {
        ps[0] + seq![' '] + spec_args(ps.drop_first())
    }
}

/// The line terminator.
pub open spec fn crlf() -> Seq<char> {
    seq!['\r', '\n']
}

/// A command line, without its terminator.
pub open spec fn spec_msg_line(m: MessageView) -> Seq<char> {
    let pfx = match m.prefix {
        Some(p) => seq![':'] + p + seq![' '],
        None => Seq::empty(),
    };
    pfx + spec_cmd_name(m.command) + seq![' '] + spec_args(wire_params(m.params))
}

/// A numeric reply line, without its terminator.
pub open spec fn spec_resp_line(r: ResponseView) -> Seq<char> {
    seq![':'] + r.prefix + seq![' '] + spec_code_digits(r.code) + seq![' '] + spec_args(
        wire_params(r.params),
    )
}

/// A message can be laid out on one line only if at most one parameter
/// contains a space.
pub open spec fn params_wire_ok(ps: Seq<Seq<char>>) -> bool {
    space_count(ps) <= 1
}

/// Why a message could not be serialized.
#[derive(Clone, Copy, Debug, PartialEq, Eq, Structural)]
pub enum CodecError {
    /// More than one parameter contains a space; only the trailing parameter
    /// may.
    MultipleTrailing,
}

proof fn lemma_space_count_push(ps: Seq<Seq<char>>, x: Seq<char>)
    ensures
        space_count(ps.push(x)) == space_count(ps) + (if has_space(x) {
            1nat
        } else {
            0nat
        }),
        space_param_at(ps.push(x)) == (if space_param_at(ps) < ps.len() {
            space_param_at(ps)
        } else if has_space(x) {
            ps.len() as int
        } else {
            ps.len() + 1 as int
        }),
    decreases ps.len(),
{
    lemma_space_param_at_bounds(ps);
    if ps.len() == 0 {
        assert(ps.push(x).drop_first() =~= Seq::<Seq<char>>::empty());
        assert(ps.push(x)[0] == x);
        assert(space_param_at(Seq::<Seq<char>>::empty()) == 0);
        assert(space_count(Seq::<Seq<char>>::empty()) == 0);
    } else {
        assert(ps.push(x)[0] == ps[0]);
        assert(ps.push(x).drop_first() =~= ps.drop_first().push(x));
        lemma_space_count_push(ps.drop_first(), x);
        lemma_space_param_at_bounds(ps.drop_first());
        if has_space(ps[0]) {
            assert(space_param_at(ps.push(x)) == 0);
            assert(space_param_at(ps) == 0);
        } else {
            assert(space_param_at(ps.push(x)) == 1 + space_param_at(ps.drop_first().push(x)));
            assert(space_param_at(ps) == 1 + space_param_at(ps.drop_first()));
        }
        assert(space_count(ps.push(x)) == (if has_space(ps[0]) {
            1nat
        } else {
            0nat
        }) + space_count(ps.drop_first().push(x)));
    }
}

proof fn lemma_space_param_at_bounds(ps: Seq<Seq<char>>)
    ensures
        0 <= space_param_at(ps) <= ps.len(),
        forall|j: int| 0 <= j < space_param_at(ps) ==> !has_space(ps[j]),
        space_param_at(ps) < ps.len() ==> has_space(ps[space_param_at(ps)]),
    decreases ps.len(),
{
    if ps.len() > 0 && !has_space(ps[0]) {
        lemma_space_param_at_bounds(ps.drop_first());
        assert forall|j: int| 0 <= j < space_param_at(ps) implies !has_space(ps[j]) by {
            if j > 0 {
                assert(ps.drop_first()[j - 1] == ps[j]);
            }
        }
    }
}

proof fn lemma_space_count_zero(ps: Seq<Seq<char>>)
    ensures
        (space_count(ps) == 0) <==> (space_param_at(ps) == ps.len()),
    decreases ps.len(),
{
    if ps.len() > 0 {
        lemma_space_count_zero(ps.drop_first());
        lemma_space_param_at_bounds(ps.drop_first());
    }
}

fn str_has_space(s: &str) -> (r: bool)
    ensures
        r == has_space(s@),
{
    let n = s.unicode_len();
    let mut i: usize = 0;
    while i < n
        invariant
            n == s@.len(),
            0 <= i <= n,
            forall|j: int| 0 <= j < i ==> s@[j] != ' ',
        decreases n - i,
    {
        if s.get_char(i) == ' ' {
            return true;
        }
        i += 1;
    }
    false
}

/// Lay the parameters out for the wire: move a lone space-containing
/// parameter to the end, or refuse when more than one contains a space.
fn reorder_params(params: &Vec<String>) -> (r: Result<Vec<String>, CodecError>)
    ensures
        r matches Ok(v) ==> params_wire_ok(views_of(params@)) && views_of(v@) == wire_params(
            views_of(params@),
        ),
        r matches Err(e) ==> !params_wire_ok(views_of(params@)) && e
            == CodecError::MultipleTrailing,
{
    let ghost psv = views_of(params@);
    let n = params.len();
    let mut cnt: usize = 0;
    let mut idx: usize = n;
    let mut i: usize = 0;
    while i < n
        invariant
            n == params@.len(),
            0 <= i <= n,
            psv == views_of(params@),
            psv.len() == n,
            cnt == space_count(psv.take(i as int)),
            cnt <= i,
            idx == (if space_param_at(psv.take(i as int)) < i as int {
                space_param_at(psv.take(i as int))
            } else {
                n as int
            }),
        decreases n - i,
    {
        proof {
            assert(psv.take(i + 1 as int) =~= psv.take(i as int).push(psv[i as int]));
            lemma_space_count_push(psv.take(i as int), psv[i as int]);
            lemma_space_param_at_bounds(psv.take(i as int));
            lemma_space_count_zero(psv.take(i as int));
        }
        if str_has_space(params[i].as_str()) {
            if cnt == 0 {
                idx = i;
            }
            cnt = cnt + 1;
        }
        i += 1;
    }
    proof {
        assert(psv.take(n as int) =~= psv);
        lemma_space_param_at_bounds(psv);
    }
    if cnt >= 2 {
        return Err(CodecError::MultipleTrailing);
    }
    if idx >= n || idx == n - 1 {
        // No parameter needs to move.
        let mut v: Vec<String> = Vec::new();
        let mut j: usize = 0;
        while j < n
            invariant
                n == params@.len(),
                0 <= j <= n,
                psv == views_of(params@),
                views_of(v@) =~= psv.take(j as int),
            decreases n - j,
        {
            let ghost pre = v@;
            v.push(params[j].clone());
            proof {
                lemma_views_of_push(pre, params@[j as int]);
                assert(views_of(v@) =~= psv.take(j + 1 as int));
            }
            j += 1;
        }
        proof {
            assert(views_of(v@) =~= psv);
        }
        Ok(v)
    } else {
        // Exactly one parameter contains a space and it is not last: emit the
        // others in order, then that one as the trailing parameter.
        let ghost target = psv.remove(idx as int);
        let mut v: Vec<String> = Vec::new();
        let mut j: usize = 0;
        while j < n
            invariant
                n == params@.len(),
                0 <= j <= n,
                idx < n - 1,
                psv == views_of(params@),
                target == psv.remove(idx as int),
                views_of(v@) =~= (if j <= idx {
                    target.take(j as int)
                } else {
                    target.take(j - 1)
                }),
            decreases n - j,
        {
            if j != idx {
                let ghost pre = v@;
                v.push(params[j].clone());
                proof {
                    lemma_views_of_push(pre, params@[j as int]);
                    if j < idx {
                        assert(views_of(v@) =~= target.take(j + 1 as int));
                    } else {
                        assert(views_of(v@) =~= target.take(j as int));
                    }
                }
            }
            j += 1;
        }
        let ghost pre = v@;
        v.push(params[idx].clone());
        proof {
            lemma_views_of_push(pre, params@[idx as int]);
            assert(target.take(n - 1) =~= target);
            assert(views_of(v@) =~= wire_params(psv));
        }
        Ok(v)
    }
}

/// Append the argument part of a line to `out`.
fn append_args(out: &mut String, ps: &Vec<String>)
    ensures
        final(out)@ == old(out)@ + spec_args(views_of(ps@)),
{
    let ghost q = views_of(ps@);
    let ghost head = out@;
    let m = ps.len();
    let mut i: usize = 0;
    proof {
        assert(q.skip(0) =~= q);
    }
    while i < m
        invariant
            m == ps@.len(),
            0 <= i <= m,
            q == views_of(ps@),
            out@ + spec_args(q.skip(i as int)) == head + spec_args(q),
        decreases m - i,
    {
        proof {
            assert(q.skip(i as int).drop_first() =~= q.skip(i + 1 as int));
            assert(q.skip(i as int)[0] == q[i as int]);
            reveal_strlit(":");
            reveal_strlit(" ");
            assert(":"@ =~= seq![':']);
            assert(" "@ =~= seq![' ']);
        }
        if i + 1 == m {
            out.append(":");
            out.append(ps[i].as_str());
            proof {
                assert(q.skip(m - 1).len() == 1);
                assert(spec_args(q.skip(m - 1)) =~= seq![':'] + q[m - 1]);
                assert(q.skip(m as int) =~= Seq::<Seq<char>>::empty());
            }
        } else {
            out.append(ps[i].as_str());
            out.append(" ");
            proof {
                assert(spec_args(q.skip(i as int)) =~= q[i as int] + seq![' '] + spec_args(
                    q.skip(i + 1 as int),
                ));
            }
        }
        i += 1;
    }
    proof {
        assert(spec_args(q.skip(m as int)) =~= Seq::<char>::empty());
        assert(out@ =~= head + spec_args(q));
    }
}

impl Message {
    /// Serialize this message into one line, without the terminator. Fails
    /// exactly when more than one parameter contains a space, since only the
    /// trailing parameter may.
    pub fn to_line(&self) -> (r: Result<String, CodecError>)
        ensures
            r matches Ok(s) ==> params_wire_ok(self@.params) && s@ == spec_msg_line(self@),
            r matches Err(e) ==> !params_wire_ok(self@.params) && e
                == CodecError::MultipleTrailing,
    {
        let ps = match reorder_params(&self.params) {
            Ok(v) => v,
            Err(e) => {
                return Err(e);
            },
        };
        let mut out = String::new();
        proof {
            reveal_strlit(":");
            reveal_strlit(" ");
            assert(":"@ =~= seq![':']);
            assert(" "@ =~= seq![' ']);
        }
        match &self.prefix {
            Some(p) => {
                out.append(":");
                out.append(p.as_str());
                out.append(" ");
            },
            None => {},
        }
        out.append(self.command.name());
        out.append(" ");
        append_args(&mut out, &ps);
        proof {
            assert(out@ =~= spec_msg_line(self@));
        }
        Ok(out)
    }
}

impl Response {
    /// Serialize this numeric reply into one line, without the terminator.
    pub fn to_line(&self) -> (r: Result<String, CodecError>)
        ensures
            r matches Ok(s) ==> params_wire_ok(self@.params) && s@ == spec_resp_line(self@),
            r matches Err(e) ==> !params_wire_ok(self@.params) && e
                == CodecError::MultipleTrailing,
    {
        let ps = match reorder_params(&self.params) {
            Ok(v) => v,
            Err(e) => {
                return Err(e);
            },
        };
        let mut out = String::new();
        proof {
            reveal_strlit(":");
            reveal_strlit(" ");
            assert(":"@ =~= seq![':']);
            assert(" "@ =~= seq![' ']);
        }
        out.append(":");
        out.append(self.prefix.as_str());
        out.append(" ");
        out.append(self.code.digits());
        out.append(" ");
        append_args(&mut out, &ps);
        proof {
            assert(out@ =~= spec_resp_line(self@));
        }
        Ok(out)
    }
}

/// Anything that can be laid out as one CR-LF-terminated protocol line.
pub trait ToIrc {
    /// Whether the value fits on one line.
    spec fn wire_ok(&self) -> bool;

    /// The line, without its terminator.
    spec fn irc_line(&self) -> Seq<char>;

    /// Serialize into a complete CR-LF-terminated line.
    fn to_irc(&self) -> (r: Result<String, CodecError>)
        ensures
            r matches Ok(s) ==> self.wire_ok() && s@ == self.irc_line() + crlf(),
            r matches Err(_) ==> !self.wire_ok(),
    ;
}

impl ToIrc for Message {
    open spec fn wire_ok(&self) -> bool {
        params_wire_ok(self@.params)
    }

    open spec fn irc_line(&self) -> Seq<char> {
        spec_msg_line(self@)
    }

    fn to_irc(&self) -> (r: Result<String, CodecError>) {
        match self.to_line() {
            Ok(mut s) => {
                proof {
                    reveal_strlit("\r\n");
                    assert("\r\n"@ =~= crlf());
                }
                s.append("\r\n");
                Ok(s)
            },
            Err(e) => Err(e),
        }
    }
}

impl ToIrc for Response {
    open spec fn wire_ok(&self) -> bool {
        params_wire_ok(self@.params)
    }

    open spec fn irc_line(&self) -> Seq<char> {
        spec_resp_line(self@)
    }

    fn to_irc(&self) -> (r: Result<String, CodecError>) {
        match self.to_line() {
            Ok(mut s) => {
                proof {
                    reveal_strlit("\r\n");
                    assert("\r\n"@ =~= crlf());
                }
                s.append("\r\n");
                Ok(s)
            },
            Err(e) => Err(e),
        }
    }
}

/// Parameter lists that survive a trip over the wire: every parameter but
/// the last is a nonempty token without spaces that does not start with `:`,
/// and the last does not end in whitespace (the line would be trimmed).
pub open spec fn params_seq_wf(ps: Seq<Seq<char>>) -> bool {
    &&& forall|i: int| #![trigger ps[i]]
        0 <= i < ps.len() - 1 ==> ps[i].len() > 0 && !has_space(ps[i]) && ps[i][0] != ':'
    &&& ps.len() > 0 ==> (ps.last().len() == 0 || !is_wsp(ps.last().last()))
}

/// Messages that survive a trip over the wire: a prefix without spaces and a
/// well-formed parameter list.
pub open spec fn wire_wf(m: MessageView) -> bool {
    &&& m.prefix matches Some(p) ==> !has_space(p)
    &&& params_seq_wf(m.params)
}

proof fn lemma_cmd_name_ok(c: Command)
    ensures
        spec_cmd_name(c).len() > 0,
        !has_space(spec_cmd_name(c)),
        spec_cmd_name(c)[0] != ':',
        !is_wsp(spec_cmd_name(c).last()),
        spec_command_of(spec_cmd_name(c)) == c,
{
    reveal_strlit("USER");
    reveal_strlit("NICK");
    reveal_strlit("JOIN");
    reveal_strlit("KICK");
    reveal_strlit("PART");
    reveal_strlit("PRIVMSG");
    reveal_strlit("LIST");
    reveal_strlit("AWAY");
    reveal_strlit("QUIT");
    reveal_strlit("PING");
    reveal_strlit("PONG");
    reveal_strlit("ERROR");
    reveal_strlit("UNKNOWN");
    let n = spec_cmd_name(c);
    assert(spec_upper(n) =~= n);
    match c {
        Command::User => {
        },
        Command::Nick => {
            assert(n[0] != "USER"@[0]);
        },
        Command::Join => {
            assert(n[0] != "USER"@[0]);
            assert(n[0] != "NICK"@[0]);
        },
        Command::Kick => {
            assert(n[0] != "USER"@[0]);
            assert(n[0] != "NICK"@[0]);
            assert(n[0] != "JOIN"@[0]);
        },
        Command::Part => {
            assert(n[0] != "USER"@[0]);
            assert(n[0] != "NICK"@[0]);
            assert(n[0] != "JOIN"@[0]);
            assert(n[0] != "KICK"@[0]);
        },
        Command::PrivMsg => {
            assert(n.len() != "USER"@.len());
            assert(n.len() != "NICK"@.len());
            assert(n.len() != "JOIN"@.len());
            assert(n.len() != "KICK"@.len());
            assert(n.len() != "PART"@.len());
        },
        Command::List => {
            assert(n[0] != "USER"@[0]);
            assert(n[0] != "NICK"@[0]);
            assert(n[0] != "JOIN"@[0]);
            assert(n[0] != "KICK"@[0]);
            assert(n[0] != "PART"@[0]);
            assert(n.len() != "PRIVMSG"@.len());
        },
        Command::Away => {
            assert(n[0] != "USER"@[0]);
            assert(n[0] != "NICK"@[0]);
            assert(n[0] != "JOIN"@[0]);
            assert(n[0] != "KICK"@[0]);
            assert(n[0] != "PART"@[0]);
            assert(n.len() != "PRIVMSG"@.len());
            assert(n[0] != "LIST"@[0]);
        },
        Command::Quit => {
            assert(n[0] != "USER"@[0]);
            assert(n[0] != "NICK"@[0]);
            assert(n[0] != "JOIN"@[0]);
            assert(n[0] != "KICK"@[0]);
            assert(n[0] != "PART"@[0]);
            assert(n.len() != "PRIVMSG"@.len());
            assert(n[0] != "LIST"@[0]);
            assert(n[0] != "AWAY"@[0]);
        },
        Command::Ping => {
            assert(n[0] != "USER"@[0]);
            assert(n[0] != "NICK"@[0]);
            assert(n[0] != "JOIN"@[0]);
            assert(n[0] != "KICK"@[0]);
            assert(n[1] != "PART"@[1]);
            assert(n.len() != "PRIVMSG"@.len());
            assert(n[0] != "LIST"@[0]);
            assert(n[0] != "AWAY"@[0]);
            assert(n[0] != "QUIT"@[0]);
        },
        Command::Pong => {
            assert(n[0] != "USER"@[0]);
            assert(n[0] != "NICK"@[0]);
            assert(n[0] != "JOIN"@[0]);
            assert(n[0] != "KICK"@[0]);
            assert(n[1] != "PART"@[1]);
            assert(n.len() != "PRIVMSG"@.len());
            assert(n[0] != "LIST"@[0]);
            assert(n[0] != "AWAY"@[0]);
            assert(n[0] != "QUIT"@[0]);
            assert(n[1] != "PING"@[1]);
        },
        Command::Error => {
            assert(n.len() != "USER"@.len());
            assert(n.len() != "NICK"@.len());
            assert(n.len() != "JOIN"@.len());
            assert(n.len() != "KICK"@.len());
            assert(n.len() != "PART"@.len());
            assert(n.len() != "PRIVMSG"@.len());
            assert(n.len() != "LIST"@.len());
            assert(n.len() != "AWAY"@.len());
            assert(n.len() != "QUIT"@.len());
            assert(n.len() != "PING"@.len());
            assert(n.len() != "PONG"@.len());
        },
        Command::Unknown => {
            assert(n.len() != "USER"@.len());
            assert(n.len() != "NICK"@.len());
            assert(n.len() != "JOIN"@.len());
            assert(n.len() != "KICK"@.len());
            assert(n.len() != "PART"@.len());
            assert(n[0] != "PRIVMSG"@[0]);
            assert(n.len() != "LIST"@.len());
            assert(n.len() != "AWAY"@.len());
            assert(n.len() != "QUIT"@.len());
            assert(n.len() != "PING"@.len());
            assert(n.len() != "PONG"@.len());
            assert(n.len() != "ERROR"@.len());
        },
    }
    assert(spec_command_of(n) == c);
}

/// A token without spaces is its own first word, with nothing after it.
proof fn lemma_word_whole(s: Seq<char>)
    requires
        !has_space(s),
    ensures
        spec_word(s) == s,
        spec_rest(s) == Seq::<char>::empty(),
{
    lemma_first_space(s);
    if first_space(s) < s.len() {
        assert(has_space(s));
    }
    assert(spec_word(s) =~= s);
}

/// Splitting `a + " " + b` at the first space yields `a` and `b` when `a`
/// itself has no space.
proof fn lemma_word_concat(a: Seq<char>, b: Seq<char>)
    requires
        !has_space(a),
    ensures
        spec_word(a + seq![' '] + b) == a,
        spec_rest(a + seq![' '] + b) == b,
{
    let s = a + seq![' '] + b;
    lemma_first_space(s);
    let fs = first_space(s);
    assert(s[a.len() as int] == ' ');
    if fs < a.len() {
        assert(s[fs] == a[fs]);
        assert(has_space(a));
        assert(false);
    }
    if fs > a.len() {
        assert(false);
    }
    assert(spec_word(s) =~= a);
    assert(spec_rest(s) =~= b);
}

proof fn lemma_trim_no_wsp(s: Seq<char>)
    requires
        s.len() == 0 || !is_wsp(s.last()),
    ensures
        spec_trim_end(s) == s,
{
}

proof fn lemma_trim_one_space(s: Seq<char>)
    ensures
        spec_trim_end(s + seq![' ']) == spec_trim_end(s),
{
    assert((s + seq![' ']).drop_last() =~= s);
}

/// Under `params_seq_wf`, no parameter needs to move for the wire.
proof fn lemma_wire_params_id(ps: Seq<Seq<char>>)
    requires
        forall|i: int| 0 <= i < ps.len() - 1 ==> !has_space(#[trigger] ps[i]),
    ensures
        wire_params(ps) == ps,
        params_wire_ok(ps),
{
    lemma_space_param_at_bounds(ps);
    lemma_space_count_zero(ps);
    if ps.len() > 0 {
        lemma_space_count_zero(ps.take(ps.len() - 1));
        lemma_space_param_at_bounds(ps.take(ps.len() - 1));
        assert(ps.take(ps.len() - 1).push(ps.last()) =~= ps);
        lemma_space_count_push(ps.take(ps.len() - 1), ps.last());
        assert forall|j: int| 0 <= j < ps.len() - 1 implies !has_space(
            #[trigger] ps.take(ps.len() - 1)[j],
        ) by {
            assert(ps.take(ps.len() - 1)[j] == ps[j]);
        }
        if space_param_at(ps.take(ps.len() - 1)) < ps.len() - 1 {
            assert(has_space(ps.take(ps.len() - 1)[space_param_at(ps.take(ps.len() - 1))]));
        }
    }
}

/// The flattened argument part of a nonempty well-formed parameter list is
/// nonempty and does not end in whitespace.
proof fn lemma_args_last(ps: Seq<Seq<char>>)
    requires
        params_seq_wf(ps),
        ps.len() > 0,
    ensures
        spec_args(ps).len() > 0,
        !is_wsp(spec_args(ps).last()),
    decreases ps.len(),
{
    if ps.len() == 1 {
        let a = seq![':'] + ps[0];
        if ps[0].len() == 0 {
            assert(a.last() == ':');
        } else {
            assert(a.last() == ps[0].last());
            assert(ps.last() == ps[0]);
        }
    } else {
        let rest = ps.drop_first();
        assert(params_seq_wf(rest)) by {
            assert forall|i: int| #![trigger rest[i]]
                0 <= i < rest.len() - 1 implies rest[i].len() > 0 && !has_space(rest[i])
                && rest[i][0] != ':' by {
                assert(rest[i] == ps[i + 1]);
                assert(ps[i + 1].len() > 0 && !has_space(ps[i + 1]) && ps[i + 1][0] != ':');
            }
            assert(rest.last() == ps.last());
        }
        lemma_args_last(rest);
        let a = ps[0] + seq![' '] + spec_args(rest);
        assert(a.last() == spec_args(rest).last());
    }
}

/// Parsing the flattened argument part of a well-formed parameter list
/// recovers exactly those parameters.
proof fn lemma_params_round(ps: Seq<Seq<char>>)
    requires
        params_seq_wf(ps),
    ensures
        spec_params(spec_args(ps)) == ps,
    decreases ps.len(),
{
    if ps.len() == 0 {
        assert(spec_params(spec_args(ps)) =~= ps);
    } else if ps.len() == 1 {
        let a = seq![':'] + ps[0];
        assert(a[0] == ':');
        assert(a.drop_first() =~= ps[0]);
        assert(spec_params(spec_args(ps)) =~= ps);
    } else {
        let rest = ps.drop_first();
        assert(params_seq_wf(rest)) by {
            assert forall|i: int| #![trigger rest[i]]
                0 <= i < rest.len() - 1 implies rest[i].len() > 0 && !has_space(rest[i])
                && rest[i][0] != ':' by {
                assert(rest[i] == ps[i + 1]);
                assert(ps[i + 1].len() > 0 && !has_space(ps[i + 1]) && ps[i + 1][0] != ':');
            }
            assert(rest.last() == ps.last());
        }
        lemma_params_round(rest);
        lemma_args_last(rest);
        let p0 = ps[0];
        assert(p0.len() > 0 && !has_space(p0) && p0[0] != ':');
        let s = p0 + seq![' '] + spec_args(rest);
        assert(spec_args(ps) == s);
        assert(s[0] == p0[0]);
        assert(s.len() > 0);
        lemma_word_concat(p0, spec_args(rest));
        assert(spec_params(s) == seq![p0] + spec_params(spec_args(rest)));
        assert(seq![p0] + rest =~= ps);
    }
}

/// Round trip: a well-formed message, laid out on the wire, parses back to
/// itself, field for field.
#[verifier::rlimit(60)]
pub proof fn lemma_round_trip(m: MessageView)
    requires
        wire_wf(m),
    ensures
        spec_parse(spec_msg_line(m)) == Ok::<MessageView, ParseError>(m),
{
    lemma_cmd_name_ok(m.command);
    lemma_wire_params_id(m.params);
    let name = spec_cmd_name(m.command);
    let args = spec_args(m.params);
    let line = spec_msg_line(m);
    let body = name + seq![' '] + args;
    // Trimming: with parameters the line ends in the last parameter, which
    // does not end in whitespace; without them it ends in one space.
    if m.params.len() == 0 {
        let cut = match m.prefix {
            Some(p) => seq![':'] + p + seq![' '] + name,
            None => name,
        };
        assert(line =~= cut + seq![' ']) by {
            assert(args =~= Seq::<char>::empty());
        }
        lemma_trim_one_space(cut);
        assert(cut.last() == name.last());
        lemma_trim_no_wsp(cut);
        assert(spec_trim_end(line) == cut);
        match m.prefix {
            Some(p) => {
                assert(cut[0] == ':');
                assert(cut.drop_first() =~= p + seq![' '] + name);
                lemma_word_concat(p, name);
                lemma_word_whole(name);
                assert(spec_parse(line) == Ok::<MessageView, ParseError>(
                    MessageView {
                        prefix: Some(p),
                        command: spec_command_of(name),
                        params: spec_params(Seq::<char>::empty()),
                    },
                ));
                assert(spec_params(Seq::<char>::empty()) =~= m.params);
            },
            None => {
                assert(cut[0] != ':');
                lemma_word_whole(name);
                assert(spec_params(Seq::<char>::empty()) =~= m.params);
            },
        }
    } else {
        lemma_args_last(m.params);
        lemma_params_round(m.params);
        assert(line.last() == args.last()) by {
            assert(line =~= (match m.prefix {
                Some(p) => seq![':'] + p + seq![' '],
                None => Seq::<char>::empty(),
            }) + body);
        }
        lemma_trim_no_wsp(line);
        match m.prefix {
            Some(p) => {
                assert(line[0] == ':');
                assert(line.drop_first() =~= p + seq![' '] + body);
                lemma_word_concat(p, body);
                lemma_word_concat(name, args);
                assert(spec_parse(line) == Ok::<MessageView, ParseError>(
                    MessageView {
                        prefix: Some(p),
                        command: spec_command_of(name),
                        params: spec_params(args),
                    },
                ));
            },
            None => {
                assert(line =~= body);
                assert(line[0] == name[0]);
                lemma_word_concat(name, args);
            },
        }
    }
}

/// Whatever the parser accepts, it accepts in well-formed shape: tokens hold
/// no spaces, empty tokens are skipped, and trailing whitespace is gone.
pub proof fn lemma_parse_wf(raw: Seq<char>)
    ensures
        spec_parse(raw) matches Ok(m) ==> wire_wf(m),
{
    let t = spec_trim_end(raw);
    lemma_trim_last(raw);
    if spec_parse(raw) matches Ok(m) {
        if t.len() > 0 && t[0] == ':' {
            let after = t.drop_first();
            lemma_first_space(after);
            assert(!has_space(spec_word(after))) by {
                if has_space(spec_word(after)) {
                    let i = choose|i: int|
                        0 <= i < spec_word(after).len() && spec_word(after)[i] == ' ';
                    assert(after[i] == ' ');
                }
            }
            lemma_rest_last(after);
            lemma_params_wf_rest(spec_rest(after));
        } else {
            lemma_params_wf_rest(t);
        }
    }
}

/// The remainder after the first word keeps the final character of the
/// string, so a string that does not end in whitespace leaves remainders
/// that do not either.
proof fn lemma_rest_last(s: Seq<char>)
    requires
        s.len() == 0 || !is_wsp(s.last()),
    ensures
        spec_rest(s).len() == 0 || !is_wsp(spec_rest(s).last()),
{
    lemma_first_space(s);
    if first_space(s) < s.len() && spec_rest(s).len() > 0 {
        assert(spec_rest(s).last() == s.last());
    }
}

/// Trimming leaves no whitespace at the end.
proof fn lemma_trim_last(raw: Seq<char>)
    ensures
        spec_trim_end(raw).len() == 0 || !is_wsp(spec_trim_end(raw).last()),
    decreases raw.len(),
{
    if raw.len() > 0 && is_wsp(raw.last()) {
        lemma_trim_last(raw.drop_last());
    }
}

/// Helper for `lemma_parse_wf`: the command word and parameters are read
/// from a string with no trailing whitespace, and the parameters then parse
/// in well-formed shape.
proof fn lemma_params_wf_rest(rest: Seq<char>)
    requires
        rest.len() == 0 || !is_wsp(rest.last()),
    ensures
        params_seq_wf(spec_params(spec_rest(rest))),
{
    lemma_rest_last(rest);
    lemma_params_wf(spec_rest(rest));
}

/// Any suffix handed to the parameter reader that does not end in
/// whitespace yields a well-formed parameter list, and a nonempty one if the
/// suffix is nonempty.
proof fn lemma_params_wf(s: Seq<char>)
    requires
        s.len() == 0 || !is_wsp(s.last()),
    ensures
        params_seq_wf(spec_params(s)),
        s.len() > 0 ==> spec_params(s).len() > 0,
    decreases s.len(),
{
    lemma_first_space(s);
    if s.len() == 0 {
    } else if s[0] == ':' {
        let p = s.drop_first();
        assert(spec_params(s) == seq![p]);
        if p.len() > 0 {
            assert(p.last() == s.last());
        }
        assert(spec_params(s).last() == p);
    } else {
        let w = spec_word(s);
        let r = spec_rest(s);
        lemma_rest_last(s);
        lemma_params_wf(r);
        assert(!has_space(w)) by {
            if has_space(w) {
                let i = choose|i: int| 0 <= i < w.len() && w[i] == ' ';
                assert(s[i] == ' ');
            }
        }
        if w.len() == 0 {
            assert(first_space(s) == 0);
            assert(r.len() > 0) by {
                if first_space(s) == s.len() {
                    assert(s.len() == 0);
                }
            }
            assert(spec_params(s) == spec_params(r));
        } else {
            let tail = spec_params(r);
            assert(spec_params(s) == seq![w] + tail);
            assert(w[0] == s[0]);
            if tail.len() == 0 {
                // Nothing follows, so the word itself is the last parameter;
                // it then ends the trimmed string.
                assert(r.len() == 0);
                assert(first_space(s) == s.len()) by {
                    if first_space(s) < s.len() {
                        assert(r =~= s.skip(first_space(s) + 1));
                    }
                }
                assert(w =~= s);
                assert(spec_params(s).last() == w);
                assert(params_seq_wf(spec_params(s)));
            } else {
                let all = seq![w] + tail;
                assert forall|i: int| #![trigger all[i]]
                    0 <= i < all.len() - 1 implies all[i].len() > 0 && !has_space(all[i])
                    && all[i][0] != ':' by {
                    if i > 0 {
                        assert(all[i] == tail[i - 1]);
                        assert(tail[i - 1].len() > 0 && !has_space(tail[i - 1]) && tail[i - 1][0]
                            != ':');
                    }
                }
                assert(all.last() == tail.last());
                assert(params_seq_wf(all));
            }
        }
    }
}

/// The parser-serializer round trip of the protocol: re-serializing and
/// re-parsing any line the parser accepts changes nothing.
pub proof fn lemma_parse_serialize_parse(raw: Seq<char>)
    ensures
        spec_parse(raw) matches Ok(m) ==> spec_parse(spec_msg_line(m)) == Ok::<
            MessageView,
            ParseError,
        >(m),
{
    lemma_parse_wf(raw);
    if spec_parse(raw) is Ok {
        lemma_round_trip(spec_parse(raw)->Ok_0);
    }
}

} // verus!
