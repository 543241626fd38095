use openmines_server::auth_flow::{
    on_authenticated, on_button, on_login_record, on_nick_checked, on_nick_lookup, AuthReply,
    AuthWindow, GuiAuthAction, LoginOutcome,
};
use openmines_server::credentials::{hash_password, verify_password};
use openmines_server::session_state::GuiAuthStep;
use openmines_server::text::trim_white_space;

fn reply(action: GuiAuthAction) -> AuthReply {
    match action {
        GuiAuthAction::Reply(r) => r,
        other => panic!("expected a reply, got {other:?}"),
    }
}

#[test]
fn exit_returns_to_the_main_menu_from_any_step() {
    let mut step = GuiAuthStep::RegisterPassword { nick: "Bob".to_owned() };
    let r = reply(on_button(&mut step, "exit"));
    assert_eq!(step, GuiAuthStep::MainMenu);
    assert_eq!(r, AuthReply { notice: None, window: Some(AuthWindow::Default) });
}

#[test]
fn new_account_button_starts_registration() {
    let mut step = GuiAuthStep::MainMenu;
    let r = reply(on_button(&mut step, "newakk"));
    assert_eq!(step, GuiAuthStep::RegisterNick);
    assert_eq!(
        r.window,
        Some(AuthWindow::Input { title: "НОВЫЙ ИГРОК", text: "Ник", action: "newnick:%I%" })
    );
}

#[test]
fn nick_button_looks_up_the_trimmed_name() {
    let mut step = GuiAuthStep::MainMenu;
    match on_button(&mut step, "nick:  Alice \t") {
        GuiAuthAction::FindPlayerByNick { name } => assert_eq!(name, "Alice"),
        other => panic!("unexpected {other:?}"),
    }
    let r = reply(on_button(&mut step, "nick:   "));
    assert_eq!(r.notice, Some("Введите ник"));
    assert_eq!(r.window, Some(AuthWindow::Default));
    let r = reply(on_button(&mut step, "something"));
    assert_eq!(r, AuthReply { notice: None, window: None });
    assert_eq!(step, GuiAuthStep::MainMenu);
}

#[test]
fn login_flow_checks_the_password_and_migrates_legacy_records() {
    let mut step = GuiAuthStep::MainMenu;
    let r = on_nick_lookup(&mut step, Some("Alice".to_owned()));
    assert_eq!(step, GuiAuthStep::LoginPassword { nick: "Alice".to_owned() });
    assert_eq!(
        r.window,
        Some(AuthWindow::Input { title: "ВХОД", text: "Пароль", action: "passwd:%I%" })
    );

    let r = reply(on_button(&mut step, "secret"));
    assert_eq!(r.notice, Some("Некорректное действие"));

    match on_button(&mut step, "passwd:secret") {
        GuiAuthAction::CheckPassword { nick, passwd } => {
            assert_eq!(nick, "Alice");
            assert_eq!(passwd, "secret");
        }
        other => panic!("unexpected {other:?}"),
    }

    match on_login_record(&mut step, "wrong", Some(("secret", "salt"))) {
        LoginOutcome::Reply(r) => assert_eq!(r.notice, Some("Не верный пароль")),
        other => panic!("unexpected {other:?}"),
    }
    assert_eq!(step, GuiAuthStep::LoginPassword { nick: "Alice".to_owned() });

    match on_login_record(&mut step, "secret", Some(("secret", "salt"))) {
        LoginOutcome::Success { migrated_passwd: Some(h) } => {
            assert_eq!(h, hash_password("secret", "salt"));
            assert!(verify_password("secret", &h, "salt"));
        }
        other => panic!("unexpected {other:?}"),
    }
    assert_eq!(step, GuiAuthStep::LoginPassword { nick: "Alice".to_owned() });
    on_authenticated(&mut step);
    assert_eq!(step, GuiAuthStep::MainMenu);

    let hashed = hash_password("secret", "salt");
    let mut step = GuiAuthStep::LoginPassword { nick: "Alice".to_owned() };
    match on_login_record(&mut step, "secret", Some((&hashed, "salt"))) {
        LoginOutcome::Success { migrated_passwd: None } => {}
        other => panic!("unexpected {other:?}"),
    }
}

#[test]
fn vanished_player_sends_the_dialog_back() {
    let mut step = GuiAuthStep::LoginPassword { nick: "Ghost".to_owned() };
    match on_login_record(&mut step, "x", None) {
        LoginOutcome::Reply(r) => {
            assert_eq!(r.notice, Some("Игрок не найден"));
            assert_eq!(r.window, Some(AuthWindow::Default));
        }
        other => panic!("unexpected {other:?}"),
    }
    assert_eq!(step, GuiAuthStep::MainMenu);

    let mut step = GuiAuthStep::MainMenu;
    let r = on_nick_lookup(&mut step, None);
    assert_eq!(r.notice, Some("Игрок не найден"));
    assert_eq!(step, GuiAuthStep::MainMenu);
}

#[test]
fn registration_flow_checks_the_nick_and_hashes_the_password() {
    let mut step = GuiAuthStep::RegisterNick;
    let r = reply(on_button(&mut step, "newnick:   "));
    assert_eq!(r, AuthReply { notice: Some("Введите ник"), window: None });
    match on_button(&mut step, "newnick: Bob ") {
        GuiAuthAction::CheckNickTaken { nick } => assert_eq!(nick, "Bob"),
        other => panic!("unexpected {other:?}"),
    }
    let r = on_nick_checked(&mut step, "Bob".to_owned(), true);
    assert_eq!(r.notice, Some("Ник занят"));
    assert_eq!(step, GuiAuthStep::RegisterNick);
    let r = on_nick_checked(&mut step, "Bob".to_owned(), false);
    assert_eq!(r.notice, None);
    assert_eq!(step, GuiAuthStep::RegisterPassword { nick: "Bob".to_owned() });

    let r = reply(on_button(&mut step, "passwd:"));
    assert_eq!(r.notice, Some("Введите пароль"));
    match on_button(&mut step, "passwd:hunter2") {
        GuiAuthAction::CreatePlayer { nick, hashed_passwd, salt } => {
            assert_eq!(nick, "Bob");
            assert_eq!(salt.chars().count(), 12);
            assert_eq!(hashed_passwd, hash_password("hunter2", &salt));
        }
        other => panic!("unexpected {other:?}"),
    }
    on_authenticated(&mut step);
    assert_eq!(step, GuiAuthStep::MainMenu);
}

#[test]
fn trimming_removes_unicode_white_space_at_both_ends() {
    assert_eq!(trim_white_space("  a b \n"), "a b");
    assert_eq!(trim_white_space("\u{3000}x\u{a0}"), "x");
    assert_eq!(trim_white_space(" \t "), "");
    assert_eq!(trim_white_space("x"), "x");
}
