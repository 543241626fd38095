//! Slash commands typed in chat: the message is split at white space, and
//! the arguments of the `/give`, `/money`, `/tp`, `/kick`, `/role`, `/clan`
//! and `/pack` commands are read from the words.
use vstd::prelude::*;
use crate::text::{is_white_space, parse_i32, parse_i64, spec_parse_i32, spec_parse_i64, str_chars, chars_equal_str, eq_ignore_ascii_case, spec_eq_ignore_ascii_case};
use crate::ids::PlayerId;

verus! {

/// Position of the first white-space character of `s`, or its length.
pub open spec fn first_ws(s: Seq<char>) -> int
    decreases s.len(),
{
    if s.len() == 0 {
        0
    } else if is_white_space(s[0]) {
        0
    } else {
        1 + first_ws(s.drop_first())
    }
}

/// `first_ws` is the position of the first white-space character.
pub proof fn lemma_first_ws(s: Seq<char>)
    ensures
        0 <= first_ws(s) <= s.len(),
        forall|j: int| 0 <= j < first_ws(s) ==> !is_white_space(#[trigger] s[j]),
        first_ws(s) < s.len() ==> is_white_space(s[first_ws(s)]),
    decreases s.len(),
{
    if s.len() > 0 && !is_white_space(s[0]) {
        lemma_first_ws(s.drop_first());
        assert forall|j: int| 0 <= j < first_ws(s) implies !is_white_space(#[trigger] s[j]) by {
            if j > 0 {
                assert(s[j] == s.drop_first()[j - 1]);
            }
        }
    }
}

proof fn lemma_first_ws_unique(s: Seq<char>, r: int)
    requires
        0 <= r <= s.len(),
        forall|j: int| 0 <= j < r ==> !is_white_space(#[trigger] s[j]),
        r < s.len() ==> is_white_space(s[r]),
    ensures
        first_ws(s) == r,
{
    lemma_first_ws(s);
    let f = first_ws(s);
    if f < r {
        assert(!is_white_space(s[f]));
    } else if r < f {
        assert(!is_white_space(s[r]));
    }
}

/// The words of `s` as `str::split_whitespace` yields them: the maximal
/// runs of non-white-space characters, in order.
pub open spec fn ws_tokens(s: Seq<char>) -> Seq<Seq<char>>
    decreases s.len(),
{
    if s.len() == 0 {
        Seq::empty()
    } else if is_white_space(s[0]) {
        ws_tokens(s.drop_first())
    } else {
        let k = first_ws(s);
        proof {
            lemma_first_ws(s);
            assert(k >= 1);
        }
        seq![s.take(k)] + ws_tokens(s.skip(k))
    }
}

/// Splits a chat message into words at white space.
pub fn split_whitespace(msg: &str) -> (r: Vec<&str>)
    ensures
        r@.map_values(|w: &str| w@) == ws_tokens(msg@),
{
    let v = str_chars(msg);
    let n = v.len();
    let mut out: Vec<&str> = Vec::new();
    let mut i: usize = 0;
    assert(v@.skip(0) =~= v@);
    while i < n
        invariant
            n == v@.len(),
            v@ == msg@,
            i <= n,
            out@.map_values(|w: &str| w@) + ws_tokens(v@.skip(i as int)) == ws_tokens(v@),
        decreases n - i,
    {
        let ghost rest = v@.skip(i as int);
        if is_white_space_exec(v[i]) {
            assert(rest.drop_first() =~= v@.skip(i + 1));
            i = i + 1;
        } else {
            let mut j = i + 1;
            while j < n && !is_white_space_exec(v[j])
                invariant
                    i < j <= n,
                    n == v@.len(),
                    forall|k: int| i <= k < j ==> !is_white_space(#[trigger] v@[k]),
                decreases n - j,
            {
                j = j + 1;
            }
            proof {
                assert forall|k: int| 0 <= k < j - i implies !is_white_space(#[trigger] rest[k]) by {
                    assert(rest[k] == v@[i + k]);
                }
                if j < n {
                    assert(rest[j - i] == v@[j as int]);
                }
                lemma_first_ws_unique(rest, j - i);
                assert(rest.take(j - i) =~= v@.subrange(i as int, j as int));
                assert(rest.skip(j - i) =~= v@.skip(j as int));
            }
            let w = msg.substring_char(i, j);
            let ghost before = out@;
            out.push(w);
            proof {
                assert(out@.map_values(|w: &str| w@) =~= before.map_values(|w: &str| w@).push(
                    v@.subrange(i as int, j as int),
                ));
                assert(seq![rest.take(j - i)] + ws_tokens(rest.skip(j - i)) == ws_tokens(rest));
                assert(out@.map_values(|w: &str| w@) + ws_tokens(v@.skip(j as int)) =~= before.map_values(
                    |w: &str| w@,
                ) + ws_tokens(rest));
            }
            i = j;
        }
    }
    proof {
        assert(v@.skip(n as int) =~= Seq::<char>::empty());
        assert(out@.map_values(|w: &str| w@) + Seq::<Seq<char>>::empty() =~= out@.map_values(
            |w: &str| w@,
        ));
    }
    out
}

fn is_white_space_exec(c: char) -> (r: bool)
    ensures
        r == is_white_space(c),
{
    ('\u{9}' <= c && c <= '\u{d}') || c == ' ' || c == '\u{85}' || c == '\u{a0}' || c
        == '\u{1680}' || ('\u{2000}' <= c && c <= '\u{200a}') || c == '\u{2028}' || c
        == '\u{2029}' || c == '\u{202f}' || c == '\u{205f}' || c == '\u{3000}'
}

pub const CMD_USAGE_GIVE: &'static str = "Использование: /give ITEM_ID AMOUNT";

pub const CMD_USAGE_MONEY: &'static str = "Использование: /money AMOUNT";

pub const CMD_USAGE_MONEY_ALL: &'static str = "Использование: /moneyall AMOUNT";

pub const CMD_USAGE_TP: &'static str = "Использование: /tp X Y";

pub const CMD_USAGE_PACK_OWNER: &'static str = "Использование: /pack owner X Y OWNER_ID";

pub const CMD_USAGE_PACK_CLAN: &'static str = "Использование: /pack clan X Y CLAN_ID";

pub const CMD_USAGE_PACK_MOVE: &'static str = "Использование: /pack move X Y NX NY";

pub const CMD_USAGE_PACK_TYPE: &'static str = "Использование: /pack type X Y TYPE (T/R/G/M/U/L/F/O)";

pub const CMD_USAGE_PACK: &'static str = "Команды: /pack owner X Y OWNER_ID | /pack clan X Y CLAN_ID | /pack move X Y NX NY | /pack type X Y TYPE";

pub const CMD_USAGE_KICK: &'static str = "Использование: /kick ИМЯ";

pub const CMD_USAGE_ROLE: &'static str = "Использование: /role ИМЯ admin|mod|player";

pub const CMD_USAGE_CLAN_CREATE: &'static str = "Использование: /clan create ИМЯ ТЕГ";

pub const CMD_USAGE_CLAN_KICK: &'static str = "Использование: /clan kick ИМЯ";

pub const CMD_USAGE_CLAN: &'static str = "Команды: /clan create ИМЯ ТЕГ | /clan leave | /clan kick ИМЯ";

/// Argument `i` read as an `i32`, when it is there and well formed.
pub open spec fn arg_i32(args: Seq<&str>, i: int) -> Option<i32> {
    if 0 <= i < args.len() {
        spec_parse_i32(args[i]@)
    } else {
        None
    }
}

/// Argument `i` read as an `i64`, when it is there and well formed.
pub open spec fn arg_i64(args: Seq<&str>, i: int) -> Option<i64> {
    if 0 <= i < args.len() {
        spec_parse_i64(args[i]@)
    } else {
        None
    }
}

fn get_i32(args: &Vec<&str>, i: usize) -> (r: Option<i32>)
    ensures
        r == arg_i32(args@, i as int),
{
    if i < args.len() {
        parse_i32(args[i])
    } else {
        None
    }
}

fn get_i64(args: &Vec<&str>, i: usize) -> (r: Option<i64>)
    ensures
        r == arg_i64(args@, i as int),
{
    if i < args.len() {
        parse_i64(args[i])
    } else {
        None
    }
}

/// `/give ITEM_ID [AMOUNT]`: the item and the amount (1 when left out), or
/// the usage text for a missing or malformed argument.
pub open spec fn spec_give_args(args: Seq<&str>) -> Result<(i32, i32), &'static str> {
    match arg_i32(args, 0) {
        None => Err(CMD_USAGE_GIVE),
        Some(item) => if args.len() < 2 {
            Ok((item, 1))
        } else {
            match arg_i32(args, 1) {
                Some(amount) => Ok((item, amount)),
                None => Err(CMD_USAGE_GIVE),
            }
        },
    }
}

pub fn give_args(args: &Vec<&str>) -> (r: Result<(i32, i32), &'static str>)
    ensures
        r == spec_give_args(args@),
{
    match get_i32(args, 0) {
        None => Err(CMD_USAGE_GIVE),
        Some(item) => if args.len() < 2 {
            Ok((item, 1))
        } else {
            match get_i32(args, 1) {
                Some(amount) => Ok((item, amount)),
                None => Err(CMD_USAGE_GIVE),
            }
        },
    }
}

/// `/money AMOUNT` (and `/moneyall AMOUNT` with its own usage text).
pub fn money_amount(args: &Vec<&str>, usage: &'static str) -> (r: Result<i64, &'static str>)
    ensures
        r == (match arg_i64(args@, 0) {
            Some(a) => Ok(a),
            None => Err(usage),
        }),
{
    match get_i64(args, 0) {
        Some(a) => Ok(a),
        None => Err(usage),
    }
}

/// `/tp X Y`.
pub fn teleport_args(args: &Vec<&str>) -> (r: Result<(i32, i32), &'static str>)
    ensures
        r == (match (arg_i32(args@, 0), arg_i32(args@, 1)) {
            (Some(x), Some(y)) => Ok((x, y)),
            _ => Err(CMD_USAGE_TP),
        }),
{
    match get_i32(args, 0) {
        None => Err(CMD_USAGE_TP),
        Some(x) => match get_i32(args, 1) {
            None => Err(CMD_USAGE_TP),
            Some(y) => Ok((x, y)),
        },
    }
}

/// A role an admin can give.
#[derive(Clone, Copy, Debug, PartialEq, Eq, Structural)]
pub enum Role {
    Player,
    Moderator,
    Admin,
}

/// `admin`, `mod`/`moderator` or `player`.
pub open spec fn spec_role_named(s: Seq<char>) -> Option<Role> {
    if s == "admin"@ {
        Some(Role::Admin)
    } else if s == "mod"@ || s == "moderator"@ {
        Some(Role::Moderator)
    } else if s == "player"@ {
        Some(Role::Player)
    } else {
        None
    }
}

/// What `/role NAME ROLE` asks for.
#[derive(Debug, PartialEq, Eq)]
pub enum RoleCommand<'a> {
    /// Show this usage text.
    Usage(&'static str),
    /// The role word is not one of `admin|mod|player`.
    UnknownRole,
    Assign { name: &'a str, role: Role },
}

pub fn role_command<'a>(args: &Vec<&'a str>) -> (r: RoleCommand<'a>)
    ensures
        args@.len() < 2 ==> r == RoleCommand::Usage(CMD_USAGE_ROLE),
        args@.len() >= 2 ==> r == (match spec_role_named(args@[1]@) {
            Some(role) => RoleCommand::Assign { name: args@[0], role },
            None => RoleCommand::UnknownRole,
        }),
{
    if args.len() < 2 {
        return RoleCommand::Usage(CMD_USAGE_ROLE);
    }
    let w = str_chars(args[1]);
    let role = if chars_equal_str(&w, "admin") {
        Some(Role::Admin)
    } else if chars_equal_str(&w, "mod") || chars_equal_str(&w, "moderator") {
        Some(Role::Moderator)
    } else if chars_equal_str(&w, "player") {
        Some(Role::Player)
    } else {
        None
    };
    match role {
        Some(role) => RoleCommand::Assign { name: args[0], role },
        None => RoleCommand::UnknownRole,
    }
}

/// What `/clan …` asks for.
#[derive(Debug, PartialEq, Eq)]
pub enum ClanCommand<'a> {
    Usage(&'static str),
    Create { name: &'a str, tag: &'a str },
    Leave,
    Kick { target: &'a str },
}

pub open spec fn spec_clan_command<'a>(args: Seq<&'a str>) -> ClanCommand<'a> {
    if args.len() == 0 {
        ClanCommand::Usage(CMD_USAGE_CLAN)
    } else if args[0]@ == "create"@ {
        if args.len() < 3 {
            ClanCommand::Usage(CMD_USAGE_CLAN_CREATE)
        } else {
            ClanCommand::Create { name: args[1], tag: args[2] }
        }
    } else if args[0]@ == "leave"@ {
        ClanCommand::Leave
    } else if args[0]@ == "kick"@ {
        if args.len() < 2 {
            ClanCommand::Usage(CMD_USAGE_CLAN_KICK)
        } else {
            ClanCommand::Kick { target: args[1] }
        }
    } else {
        ClanCommand::Usage(CMD_USAGE_CLAN)
    }
}

/// Reads `/clan create NAME TAG`, `/clan leave` and `/clan kick NAME`
/// (words are never empty, so a missing word is the only way to miss one).
pub fn clan_command<'a>(args: &Vec<&'a str>) -> (r: ClanCommand<'a>)
    ensures
        r == spec_clan_command(args@),
{
    if args.len() == 0 {
        return ClanCommand::Usage(CMD_USAGE_CLAN);
    }
    let sub = str_chars(args[0]);
    if chars_equal_str(&sub, "create") {
        if args.len() < 3 {
            ClanCommand::Usage(CMD_USAGE_CLAN_CREATE)
        } else {
            ClanCommand::Create { name: args[1], tag: args[2] }
        }
    } else if chars_equal_str(&sub, "leave") {
        ClanCommand::Leave
    } else if chars_equal_str(&sub, "kick") {
        if args.len() < 2 {
            ClanCommand::Usage(CMD_USAGE_CLAN_KICK)
        } else {
            ClanCommand::Kick { target: args[1] }
        }
    } else {
        ClanCommand::Usage(CMD_USAGE_CLAN)
    }
}

/// What `/pack …` asks for. A trailing value that is missing or malformed
/// is `None`: the command then does nothing.
#[derive(Debug, PartialEq, Eq)]
pub enum PackCommand<'a> {
    Usage(&'static str),
    SetOwner { x: i32, y: i32, owner: Option<i32> },
    SetClan { x: i32, y: i32, clan: Option<i32> },
    Move { x: i32, y: i32, to: Option<(i32, i32)> },
    SetType { x: i32, y: i32, code: Option<&'a str> },
}

pub open spec fn spec_pack_command<'a>(args: Seq<&'a str>) -> PackCommand<'a> {
    if args.len() == 0 {
        PackCommand::Usage(CMD_USAGE_PACK)
    } else {
        let sub = args[0]@;
        let pos = (arg_i32(args, 1), arg_i32(args, 2));
        if sub == "owner"@ {
            match pos {
                (Some(x), Some(y)) => PackCommand::SetOwner { x, y, owner: arg_i32(args, 3) },
                _ => PackCommand::Usage(CMD_USAGE_PACK_OWNER),
            }
        } else if sub == "clan"@ {
            match pos {
                (Some(x), Some(y)) => PackCommand::SetClan { x, y, clan: arg_i32(args, 3) },
                _ => PackCommand::Usage(CMD_USAGE_PACK_CLAN),
            }
        } else if sub == "move"@ {
            match pos {
                (Some(x), Some(y)) => PackCommand::Move {
                    x,
                    y,
                    to: match (arg_i32(args, 3), arg_i32(args, 4)) {
                        (Some(nx), Some(ny)) => Some((nx, ny)),
                        _ => None,
                    },
                },
                _ => PackCommand::Usage(CMD_USAGE_PACK_MOVE),
            }
        } else if sub == "type"@ {
            match pos {
                (Some(x), Some(y)) => PackCommand::SetType {
                    x,
                    y,
                    code: if args.len() > 3 {
                        Some(args[3])
                    } else {
                        None
                    },
                },
                _ => PackCommand::Usage(CMD_USAGE_PACK_TYPE),
            }
        } else {
            PackCommand::Usage(CMD_USAGE_PACK)
        }
    }
}

/// Reads the `/pack owner|clan|move|type X Y …` admin commands.
pub fn pack_command<'a>(args: &Vec<&'a str>) -> (r: PackCommand<'a>)
    ensures
        r == spec_pack_command(args@),
{
    if args.len() == 0 {
        return PackCommand::Usage(CMD_USAGE_PACK);
    }
    let sub = str_chars(args[0]);
    let x = get_i32(args, 1);
    let y = get_i32(args, 2);
    if chars_equal_str(&sub, "owner") {
        match (x, y) {
            (Some(x), Some(y)) => PackCommand::SetOwner { x, y, owner: get_i32(args, 3) },
            _ => PackCommand::Usage(CMD_USAGE_PACK_OWNER),
        }
    } else if chars_equal_str(&sub, "clan") {
        match (x, y) {
            (Some(x), Some(y)) => PackCommand::SetClan { x, y, clan: get_i32(args, 3) },
            _ => PackCommand::Usage(CMD_USAGE_PACK_CLAN),
        }
    } else if chars_equal_str(&sub, "move") {
        match (x, y) {
            (Some(x), Some(y)) => {
                let to = match (get_i32(args, 3), get_i32(args, 4)) {
                    (Some(nx), Some(ny)) => Some((nx, ny)),
                    _ => None,
                };
                PackCommand::Move { x, y, to }
            },
            _ => PackCommand::Usage(CMD_USAGE_PACK_MOVE),
        }
    } else if chars_equal_str(&sub, "type") {
        match (x, y) {
            (Some(x), Some(y)) => {
                let code = if args.len() > 3 {
                    Some(args[3])
                } else {
                    None
                };
                PackCommand::SetType { x, y, code }
            },
            _ => PackCommand::Usage(CMD_USAGE_PACK_TYPE),
        }
    } else {
        PackCommand::Usage(CMD_USAGE_PACK)
    }
}

/// `/pack SUB X Y …` with `X` and `Y` well-formed `i32` words acts on the
/// building at `(X, Y)`: `owner` and `clan` set the fourth word read as an
/// `i32` (nothing when it is missing or malformed), `move` takes the fourth
/// and fifth words as the new position when both are well formed, and
/// `type` takes the fourth word as the type code.
pub proof fn lemma_pack_command_words(args: Seq<&str>, x: i32, y: i32)
    requires
        args.len() >= 3,
        spec_parse_i32(args[1]@) == Some(x),
        spec_parse_i32(args[2]@) == Some(y),
    ensures
        args[0]@ == "owner"@ ==> spec_pack_command(args) == (PackCommand::SetOwner {
            x,
            y,
            owner: if args.len() > 3 {
                spec_parse_i32(args[3]@)
            } else {
                None
            },
        }),
        args[0]@ == "clan"@ ==> spec_pack_command(args) == (PackCommand::SetClan {
            x,
            y,
            clan: if args.len() > 3 {
                spec_parse_i32(args[3]@)
            } else {
                None
            },
        }),
        args[0]@ == "move"@ ==> (spec_pack_command(args) matches PackCommand::Move { x: mx, y: my, to }
            && mx == x && my == y && (to is Some <==> (args.len() > 4 && spec_parse_i32(args[3]@)
            is Some && spec_parse_i32(args[4]@) is Some)) && (to matches Some(t) ==> Some(t.0)
            == spec_parse_i32(args[3]@) && Some(t.1) == spec_parse_i32(args[4]@))),
        args[0]@ == "type"@ && args.len() > 3 ==> spec_pack_command(args) == (PackCommand::SetType {
            x,
            y,
            code: Some(args[3]),
        }),
{
    reveal_strlit("owner");
    reveal_strlit("clan");
    reveal_strlit("move");
    reveal_strlit("type");
    assert("clan"@ != "owner"@) by {
        assert("clan"@.len() != "owner"@.len());
    }
    assert("move"@ != "owner"@) by {
        assert("move"@.len() != "owner"@.len());
    }
    assert("move"@ != "clan"@) by {
        assert("move"@[0] != "clan"@[0]);
    }
}

/// `/pack owner|clan|move|type` without two well-formed coordinates only
/// shows the usage line.
pub proof fn lemma_pack_command_needs_position(args: Seq<&str>)
    requires
        args.len() >= 1,
        args[0]@ == "owner"@ || args[0]@ == "clan"@ || args[0]@ == "move"@ || args[0]@ == "type"@,
        args.len() < 3 || spec_parse_i32(args[1]@) is None || spec_parse_i32(args[2]@) is None,
    ensures
        spec_pack_command(args) is Usage,
{
}

/// The player that an argument names: `me` (any case) or `self` is the
/// player typing; a number is the online player with that id (or nobody);
/// otherwise the first online player (`online`: id and name, when known)
/// whose name equals the argument ignoring ASCII case.
pub open spec fn spec_resolve_player(self_pid: PlayerId, arg: Seq<char>, online: Seq<(i32, Option<String>)>) -> Option<PlayerId> {
    if spec_eq_ignore_ascii_case(arg, "me"@) || arg == "self"@ {
        Some(self_pid)
    } else {
        match spec_parse_i32(arg) {
            Some(p) => if exists|i: int| 0 <= i < online.len() && (#[trigger] online[i]).0 == p {
                Some(PlayerId(p))
            } else {
                None
            },
            None => match first_named(online, arg) {
                Some(i) => Some(PlayerId(online[i].0)),
                None => None,
            },
        }
    }
}

/// The first online player whose name matches `arg` ignoring ASCII case.
pub open spec fn first_named(online: Seq<(i32, Option<String>)>, arg: Seq<char>) -> Option<int> {
    if exists|i: int| 0 <= i < online.len() && name_matches(#[trigger] online[i].1, arg) {
        Some(choose|i: int| 0 <= i < online.len() && name_matches(#[trigger] online[i].1, arg)
            && forall|j: int| 0 <= j < i ==> !name_matches(#[trigger] online[j].1, arg))
    } else {
        None
    }
}

pub open spec fn name_matches(name: Option<String>, arg: Seq<char>) -> bool {
    match name {
        Some(n) => spec_eq_ignore_ascii_case(n@, arg),
        None => false,
    }
}

/// Resolves the player an admin command names (see `spec_resolve_player`).
pub fn resolve_online_player_arg(self_pid: PlayerId, arg: &str, online: &[(i32, Option<String>)]) -> (r: Option<PlayerId>)
    ensures
        r == spec_resolve_player(self_pid, arg@, online@),
{
    let chars = str_chars(arg);
    if eq_ignore_ascii_case(arg, "me") || chars_equal_str(&chars, "self") {
        return Some(self_pid);
    }
    match parse_i32(arg) {
        Some(p) => {
            let mut i: usize = 0;
            while i < online.len()
                invariant
                    !(spec_eq_ignore_ascii_case(arg@, "me"@) || arg@ == "self"@),
                    spec_parse_i32(arg@) == Some(p),
                    i <= online@.len(),
                    forall|j: int| 0 <= j < i ==> (#[trigger] online@[j]).0 != p,
                decreases online@.len() - i,
            {
                if online[i].0 == p {
                    assert(online@[i as int].0 == p);
                    return Some(PlayerId(p));
                }
                i = i + 1;
            }
            None
        },
        None => find_online_by_name(arg, online),
    }
}

/// The first online player (`online`: id and name, when known) whose name
/// equals `name` ignoring ASCII case, as the kick command looks it up.
pub fn find_online_by_name(name: &str, online: &[(i32, Option<String>)]) -> (r: Option<PlayerId>)
    ensures
        r == (match first_named(online@, name@) {
            Some(i) => Some(PlayerId(online@[i].0)),
            None => None,
        }),
{
    let mut i: usize = 0;
    while i < online.len()
        invariant
            i <= online@.len(),
            forall|j: int| 0 <= j < i ==> !name_matches(#[trigger] online@[j].1, name@),
        decreases online@.len() - i,
    {
        let m = match &online[i].1 {
            Some(n) => eq_ignore_ascii_case(n.as_str(), name),
            None => false,
        };
        if m {
            proof {
                assert(name_matches(online@[i as int].1, name@));
                assert(0 <= i < online@.len() && name_matches(online@[i as int].1, name@)
                    && forall|j: int| 0 <= j < i ==> !name_matches(#[trigger] online@[j].1, name@));
                let c = choose|c: int| 0 <= c < online@.len() && name_matches(#[trigger] online@[c].1, name@)
                    && forall|j: int| 0 <= j < c ==> !name_matches(#[trigger] online@[j].1, name@);
                if c < i {
                    assert(!name_matches(online@[c].1, name@));
                } else if c > i {
                    assert(!name_matches(online@[i as int].1, name@));
                }
                assert(first_named(online@, name@) == Some(i as int));
            }
            return Some(PlayerId(online[i].0));
        }
        i = i + 1;
    }
    None
}

} // verus!
