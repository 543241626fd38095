//! Decisions of the GUI login / registration dialog. The connection feeds in
//! the button the client pressed and the answers of the account store; each
//! step says how the dialog state moves and what to show or ask next.
use vstd::prelude::*;
use crate::credentials::{generate_hash, hash_password, spec_hash_password, spec_verify_password, verify_password};
use crate::session_state::GuiAuthStep;
use vstd::string::StrSliceExecFns;
use vstd::string::StringSliceAdditionalSpecFns;
use crate::text::{chars_equal_str, is_trim_of, lemma_trim_empty, str_chars, strip_str_prefix, trim_white_space};

verus! {

/// The rest of a button id after `prefix`, or `None` when the button does
/// not carry that prefix.
pub fn required_button_payload<'a>(button: &'a str, prefix: &str) -> (r: Option<&'a str>)
    ensures
        r is Some <==> prefix@.is_prefix_of(button@),
        r matches Some(rest) ==> rest@ == button@.skip(prefix@.len() as int),
{
    strip_str_prefix(button, prefix)
}

/// A window of the login dialog.
#[derive(Clone, Copy, Debug, PartialEq, Eq)]
pub enum AuthWindow {
    /// The default window: nick input, "new account" and "ok".
    Default,
    /// A window with one input field and an "OK" button whose action is
    /// `action` (`%I%` stands for the input).
    Input { title: &'static str, text: &'static str, action: &'static str },
}

/// What the connection shows: first an `auth` notice, then a window.
#[derive(Clone, Copy, Debug, PartialEq, Eq)]
pub struct AuthReply {
    pub notice: Option<&'static str>,
    pub window: Option<AuthWindow>,
}

/// The next thing the connection does for the dialog.
#[derive(Debug)]
pub enum GuiAuthAction {
    /// Show the reply; nothing else.
    Reply(AuthReply),
    /// Look `name` up in the account store and hand the answer to `on_nick_lookup`.
    FindPlayerByNick { name: String },
    /// Load the stored password of `nick` and hand it to `on_login_record`.
    CheckPassword { nick: String, passwd: String },
    /// Ask the store whether `nick` is taken and hand the answer to `on_nick_checked`.
    CheckNickTaken { nick: String },
    /// Create the account `nick` with the salted password hash and its salt,
    /// then call `on_authenticated`.
    CreatePlayer { nick: String, hashed_passwd: String, salt: String },
}

/// What a password check ends in.
#[derive(Debug)]
pub enum LoginOutcome {
    /// Show the reply and stay in the dialog.
    Reply(AuthReply),
    /// The password is right; store `Some(hash)` first when the record was
    /// a legacy plain-text password.
    Success { migrated_passwd: Option<String> },
}

pub open spec fn reply(notice: Option<&'static str>, window: Option<AuthWindow>) -> AuthReply {
    AuthReply { notice, window }
}

/// The reply is exactly the given notice text (if any) and window.
pub open spec fn reply_is(r: AuthReply, notice: Option<Seq<char>>, window: Option<AuthWindow>) -> bool {
    &&& match (r.notice, notice) {
        (None, None) => true,
        (Some(a), Some(b)) => a@ == b,
        _ => false,
    }
    &&& match (r.window, window) {
        (None, None) => true,
        (Some(AuthWindow::Default), Some(AuthWindow::Default)) => true,
        (
            Some(AuthWindow::Input { title: t1, text: x1, action: a1 }),
            Some(AuthWindow::Input { title: t2, text: x2, action: a2 }),
        ) => t1@ == t2@ && x1@ == x2@ && a1@ == a2@,
        _ => false,
    }
}

pub open spec fn login_window() -> AuthWindow {
    AuthWindow::Input { title: "ВХОД", text: "Пароль", action: "passwd:%I%" }
}

pub open spec fn register_nick_window() -> AuthWindow {
    AuthWindow::Input { title: "НОВЫЙ ИГРОК", text: "Ник", action: "newnick:%I%" }
}

pub open spec fn register_password_window() -> AuthWindow {
    AuthWindow::Input { title: "НОВЫЙ ИГРОК", text: "Пароль", action: "passwd:%I%" }
}

pub open spec fn wrong_password_window() -> AuthWindow {
    AuthWindow::Input {
        title: "ВХОД",
        text: "Пароль\nВведён не верный пароль. Попробуйте ещё раз.",
        action: "passwd:%I%",
    }
}

/// The step is the plain main menu.
pub open spec fn is_main_menu(s: GuiAuthStep) -> bool {
    s is MainMenu
}

/// Two dialog steps are the same step with the same nick.
pub open spec fn same_step(a: GuiAuthStep, b: GuiAuthStep) -> bool {
    match (a, b) {
        (GuiAuthStep::MainMenu, GuiAuthStep::MainMenu) => true,
        (GuiAuthStep::RegisterNick, GuiAuthStep::RegisterNick) => true,
        (GuiAuthStep::LoginPassword { nick: x }, GuiAuthStep::LoginPassword { nick: y }) => x@ == y@,
        (GuiAuthStep::RegisterPassword { nick: x }, GuiAuthStep::RegisterPassword { nick: y }) => x@
            == y@,
        _ => false,
    }
}

/// A fresh account salt: twelve characters from `A`–`Z` and `0`–`9`.
pub open spec fn is_account_salt(s: Seq<char>) -> bool {
    s.len() == 12 && forall|i: int| 0 <= i < 12 ==> ('A' <= #[trigger] s[i] <= 'Z') || ('0' <= s[i] <= '9')
}

fn notice_reply(notice: &'static str, window: Option<AuthWindow>) -> (r: AuthReply)
    ensures
        r == reply(Some(notice), window),
{
    AuthReply { notice: Some(notice), window }
}

/// Handles a button pressed in the dialog.
///
/// A button starting with `exit` always returns to the main menu. In the
/// main menu `newakk` starts a registration and `nick:<name>` looks the
/// (trimmed) name up; other buttons are ignored. While waiting for a
/// password the button must be `passwd:<password>`, while waiting for a
/// new nick `newnick:<nick>`; anything else is answered with a notice and
/// the same window again.
pub fn on_button(step: &mut GuiAuthStep, button: &str) -> (r: GuiAuthAction)
    ensures
        "exit"@.is_prefix_of(button@) ==> is_main_menu(*final(step)) && (r matches GuiAuthAction::Reply(
            rep,
        ) && reply_is(rep, None, Some(AuthWindow::Default))),
        !"exit"@.is_prefix_of(button@) ==> match *old(step) {
            GuiAuthStep::MainMenu => if button@ == "newakk"@ {
                *final(step) is RegisterNick && (r matches GuiAuthAction::Reply(rep) && reply_is(
                    rep,
                    None,
                    Some(register_nick_window()),
                ))
            } else if "nick:"@.is_prefix_of(button@) {
                is_main_menu(*final(step)) && if (forall|k: int|
                    5 <= k < button@.len() ==> crate::text::is_white_space(#[trigger] button@[k])) {
                    r matches GuiAuthAction::Reply(rep) && reply_is(
                        rep,
                        Some("Введите ник"@),
                        Some(AuthWindow::Default),
                    )
                } else {
                    r matches GuiAuthAction::FindPlayerByNick { name } && is_trim_of(
                        name@,
                        button@.skip(5),
                    )
                }
            } else {
                is_main_menu(*final(step)) && (r matches GuiAuthAction::Reply(rep) && reply_is(
                    rep,
                    None,
                    None,
                ))
            },
            GuiAuthStep::LoginPassword { nick } => same_step(*final(step), *old(step)) && if "passwd:"@.is_prefix_of(
                button@,
            ) {
                r matches GuiAuthAction::CheckPassword { nick: n, passwd } && n@ == nick@ && passwd@
                    == button@.skip(7)
            } else {
                r matches GuiAuthAction::Reply(rep) && reply_is(
                    rep,
                    Some("Некорректное действие"@),
                    Some(login_window()),
                )
            },
            GuiAuthStep::RegisterNick => *final(step) is RegisterNick && if "newnick:"@.is_prefix_of(
                button@,
            ) {
                if (forall|k: int|
                    8 <= k < button@.len() ==> crate::text::is_white_space(#[trigger] button@[k])) {
                    r matches GuiAuthAction::Reply(rep) && reply_is(rep, Some("Введите ник"@), None)
                } else {
                    r matches GuiAuthAction::CheckNickTaken { nick } && is_trim_of(
                        nick@,
                        button@.skip(8),
                    )
                }
            } else {
                r matches GuiAuthAction::Reply(rep) && reply_is(
                    rep,
                    Some("Некорректное действие"@),
                    Some(register_nick_window()),
                )
            },
            GuiAuthStep::RegisterPassword { nick } => same_step(*final(step), *old(step)) && if "passwd:"@.is_prefix_of(
                button@,
            ) {
                if button@.len() == 7 {
                    r matches GuiAuthAction::Reply(rep) && reply_is(rep, Some("Введите пароль"@), None)
                } else {
                    r matches GuiAuthAction::CreatePlayer { nick: n, hashed_passwd, salt } && n@
                        == nick@ && is_account_salt(salt@) && hashed_passwd@ == spec_hash_password(
                        vstd::utf8::encode_utf8(button@.skip(7)),
                        vstd::utf8::encode_utf8(salt@),
                    )
                }
            } else {
                r matches GuiAuthAction::Reply(rep) && reply_is(
                    rep,
                    Some("Некорректное действие"@),
                    Some(register_password_window()),
                )
            },
        },
{
    proof {
        reveal_strlit("exit");
        reveal_strlit("newakk");
        reveal_strlit("nick:");
        reveal_strlit("passwd:");
        reveal_strlit("newnick:");
    }
    if let Some(_) = strip_str_prefix(button, "exit") {
        *step = GuiAuthStep::MainMenu;
        return GuiAuthAction::Reply(AuthReply { notice: None, window: Some(AuthWindow::Default) });
    }
    match step {
        GuiAuthStep::MainMenu => {
            if chars_equal_str(&str_chars(button), "newakk") {
                *step = GuiAuthStep::RegisterNick;
                return GuiAuthAction::Reply(
                    AuthReply {
                        notice: None,
                        window: Some(
                            AuthWindow::Input {
                                title: "НОВЫЙ ИГРОК",
                                text: "Ник",
                                action: "newnick:%I%",
                            },
                        ),
                    },
                );
            }
            match required_button_payload(button, "nick:") {
                Some(rest) => {
                    let name = trim_white_space(rest);
                    proof {
                        lemma_trim_empty(name@, rest@);
                        assert forall|k: int| 5 <= k < button@.len() implies #[trigger] button@[k]
                            == rest@[k - 5] by {}
                    }
                    if name.unicode_len() == 0 {
                        GuiAuthAction::Reply(notice_reply("Введите ник", Some(AuthWindow::Default)))
                    } else {
                        GuiAuthAction::FindPlayerByNick { name: name.to_owned() }
                    }
                },
                None => GuiAuthAction::Reply(AuthReply { notice: None, window: None }),
            }
        },
        GuiAuthStep::LoginPassword { nick } => match required_button_payload(button, "passwd:") {
            Some(passwd) => GuiAuthAction::CheckPassword {
                nick: nick.clone(),
                passwd: passwd.to_owned(),
            },
            None => GuiAuthAction::Reply(
                notice_reply(
                    "Некорректное действие",
                    Some(AuthWindow::Input { title: "ВХОД", text: "Пароль", action: "passwd:%I%" }),
                ),
            ),
        },
        GuiAuthStep::RegisterNick => match required_button_payload(button, "newnick:") {
            Some(rest) => {
                let nick = trim_white_space(rest);
                proof {
                    lemma_trim_empty(nick@, rest@);
                    assert forall|k: int| 8 <= k < button@.len() implies #[trigger] button@[k]
                        == rest@[k - 8] by {}
                }
                if nick.unicode_len() == 0 {
                    GuiAuthAction::Reply(notice_reply("Введите ник", None))
                } else {
                    GuiAuthAction::CheckNickTaken { nick: nick.to_owned() }
                }
            },
            None => GuiAuthAction::Reply(
                notice_reply(
                    "Некорректное действие",
                    Some(
                        AuthWindow::Input {
                            title: "НОВЫЙ ИГРОК",
                            text: "Ник",
                            action: "newnick:%I%",
                        },
                    ),
                ),
            ),
        },
        GuiAuthStep::RegisterPassword { nick } => match required_button_payload(button, "passwd:") {
            Some(passwd) => {
                if passwd.unicode_len() == 0 {
                    GuiAuthAction::Reply(notice_reply("Введите пароль", None))
                } else {
                    let salt = generate_hash();
                    let hashed_passwd = hash_password(passwd, salt.as_str());
                    GuiAuthAction::CreatePlayer { nick: nick.clone(), hashed_passwd, salt }
                }
            },
            None => GuiAuthAction::Reply(
                notice_reply(
                    "Некорректное действие",
                    Some(
                        AuthWindow::Input {
                            title: "НОВЫЙ ИГРОК",
                            text: "Пароль",
                            action: "passwd:%I%",
                        },
                    ),
                ),
            ),
        },
    }
}

/// Answer of the account store to a nick lookup in the main menu: a found
/// player moves the dialog to the password prompt for the stored name.
pub fn on_nick_lookup(step: &mut GuiAuthStep, found_name: Option<String>) -> (r: AuthReply)
    ensures
        match found_name {
            Some(name) => (match *final(step) {
                GuiAuthStep::LoginPassword { nick } => nick@ == name@,
                _ => false,
            }) && reply_is(r, None, Some(login_window())),
            None => same_step(*final(step), *old(step)) && reply_is(
                r,
                Some("Игрок не найден"@),
                Some(AuthWindow::Default),
            ),
        },
{
    match found_name {
        Some(name) => {
            *step = GuiAuthStep::LoginPassword { nick: name };
            AuthReply {
                notice: None,
                window: Some(AuthWindow::Input { title: "ВХОД", text: "Пароль", action: "passwd:%I%" }),
            }
        },
        None => {
            proof {
                lemma_same_step_refl(*step);
            }
            notice_reply("Игрок не найден", Some(AuthWindow::Default))
        },
    }
}

proof fn lemma_same_step_refl(s: GuiAuthStep)
    ensures
        same_step(s, s),
{
}

/// Answer of the account store to a password check: `record` is the stored
/// password and salt of the player, `None` when the player has gone. A
/// right password logs the player in (a legacy plain-text record is to be
/// replaced by its salted hash first; `on_authenticated` then resets the
/// dialog); a wrong one asks again.
pub fn on_login_record(step: &mut GuiAuthStep, passwd: &str, record: Option<(&str, &str)>) -> (r:
    LoginOutcome)
    ensures
        match record {
            None => is_main_menu(*final(step)) && (r matches LoginOutcome::Reply(rep) && reply_is(
                rep,
                Some("Игрок не найден"@),
                Some(AuthWindow::Default),
            )),
            Some((stored, salt)) => if spec_verify_password(passwd, stored@, salt) {
                same_step(*final(step), *old(step)) && (r matches LoginOutcome::Success { migrated_passwd }
                    && if "sha256:"@.is_prefix_of(stored@) {
                    migrated_passwd is None
                } else {
                    migrated_passwd matches Some(h) && h@ == spec_hash_password(
                        passwd.spec_bytes(),
                        salt.spec_bytes(),
                    )
                })
            } else {
                same_step(*final(step), *old(step)) && (r matches LoginOutcome::Reply(rep)
                    && reply_is(rep, Some("Не верный пароль"@), Some(wrong_password_window())))
            },
        },
{
    match record {
        None => {
            *step = GuiAuthStep::MainMenu;
            LoginOutcome::Reply(notice_reply("Игрок не найден", Some(AuthWindow::Default)))
        },
        Some((stored, salt)) => {
            if verify_password(passwd, stored, salt) {
                proof {
                    reveal_strlit("sha256:");
                }
                let migrated_passwd = match strip_str_prefix(stored, "sha256:") {
                    Some(_) => None,
                    None => Some(hash_password(passwd, salt)),
                };
                proof {
                    lemma_same_step_refl(*step);
                }
                LoginOutcome::Success { migrated_passwd }
            } else {
                proof {
                    lemma_same_step_refl(*step);
                }
                LoginOutcome::Reply(
                    notice_reply(
                        "Не верный пароль",
                        Some(
                            AuthWindow::Input {
                                title: "ВХОД",
                                text: "Пароль\nВведён не верный пароль. Попробуйте ещё раз.",
                                action: "passwd:%I%",
                            },
                        ),
                    ),
                )
            }
        },
    }
}

/// Answer of the account store to "is this nick taken": a free nick moves
/// the registration on to the password prompt.
pub fn on_nick_checked(step: &mut GuiAuthStep, nick: String, taken: bool) -> (r: AuthReply)
    ensures
        taken ==> same_step(*final(step), *old(step)) && reply_is(
            r,
            Some("Ник занят"@),
            Some(register_nick_window()),
        ),
        !taken ==> (match *final(step) {
            GuiAuthStep::RegisterPassword { nick: n } => n@ == nick@,
            _ => false,
        }) && reply_is(r, None, Some(register_password_window())),
{
    if taken {
        proof {
            lemma_same_step_refl(*step);
        }
        notice_reply(
            "Ник занят",
            Some(AuthWindow::Input { title: "НОВЫЙ ИГРОК", text: "Ник", action: "newnick:%I%" }),
        )
    } else {
        *step = GuiAuthStep::RegisterPassword { nick };
        AuthReply {
            notice: None,
            window: Some(AuthWindow::Input { title: "НОВЫЙ ИГРОК", text: "Пароль", action: "passwd:%I%" }),
        }
    }
}

/// The player is logged in or registered: the dialog starts over.
pub fn on_authenticated(step: &mut GuiAuthStep)
    ensures
        is_main_menu(*final(step)),
{
    *step = GuiAuthStep::MainMenu;
}

} // verus!
