use openmines_server::chat_command::{
    clan_command, give_args, money_amount, pack_command, role_command, split_whitespace,
    teleport_args, ClanCommand, PackCommand, Role, RoleCommand, CMD_USAGE_CLAN,
    CMD_USAGE_CLAN_CREATE, CMD_USAGE_GIVE, CMD_USAGE_MONEY, CMD_USAGE_PACK, CMD_USAGE_PACK_MOVE,
    CMD_USAGE_ROLE, CMD_USAGE_TP,
};

#[test]
fn messages_split_at_any_white_space() {
    assert_eq!(split_whitespace("  /give  5\t10 \n"), vec!["/give", "5", "10"]);
    assert_eq!(split_whitespace("a\u{3000}b"), vec!["a", "b"]);
    assert_eq!(split_whitespace("   "), Vec::<&str>::new());
    assert_eq!(split_whitespace("ключ значение"), vec!["ключ", "значение"]);
}

#[test]
fn give_defaults_the_amount_to_one() {
    assert_eq!(give_args(&vec!["7"]), Ok((7, 1)));
    assert_eq!(give_args(&vec!["7", "20"]), Ok((7, 20)));
    assert_eq!(give_args(&vec!["7", "x"]), Err(CMD_USAGE_GIVE));
    assert_eq!(give_args(&vec![]), Err(CMD_USAGE_GIVE));
}

#[test]
fn money_and_teleport_need_numbers() {
    assert_eq!(money_amount(&vec!["-9000000000"], CMD_USAGE_MONEY), Ok(-9_000_000_000));
    assert_eq!(money_amount(&vec!["many"], CMD_USAGE_MONEY), Err(CMD_USAGE_MONEY));
    assert_eq!(teleport_args(&vec!["10", "-3"]), Ok((10, -3)));
    assert_eq!(teleport_args(&vec!["10"]), Err(CMD_USAGE_TP));
}

#[test]
fn roles_are_admin_mod_or_player() {
    assert_eq!(role_command(&vec!["Bob", "moderator"]), RoleCommand::Assign { name: "Bob", role: Role::Moderator });
    assert_eq!(role_command(&vec!["Bob", "admin"]), RoleCommand::Assign { name: "Bob", role: Role::Admin });
    assert_eq!(role_command(&vec!["Bob", "king"]), RoleCommand::UnknownRole);
    assert_eq!(role_command(&vec!["Bob"]), RoleCommand::Usage(CMD_USAGE_ROLE));
}

#[test]
fn clan_subcommands() {
    assert_eq!(clan_command(&vec![]), ClanCommand::Usage(CMD_USAGE_CLAN));
    assert_eq!(clan_command(&vec!["create", "Wolves", "WLF"]), ClanCommand::Create { name: "Wolves", tag: "WLF" });
    assert_eq!(clan_command(&vec!["create", "Wolves"]), ClanCommand::Usage(CMD_USAGE_CLAN_CREATE));
    assert_eq!(clan_command(&vec!["leave"]), ClanCommand::Leave);
    assert_eq!(clan_command(&vec!["kick", "Bob"]), ClanCommand::Kick { target: "Bob" });
    assert_eq!(clan_command(&vec!["dance"]), ClanCommand::Usage(CMD_USAGE_CLAN));
}

#[test]
fn pack_subcommands() {
    assert_eq!(pack_command(&vec![]), PackCommand::Usage(CMD_USAGE_PACK));
    assert_eq!(
        pack_command(&vec!["owner", "1", "2", "99"]),
        PackCommand::SetOwner { x: 1, y: 2, owner: Some(99) }
    );
    assert_eq!(pack_command(&vec!["clan", "1", "2"]), PackCommand::SetClan { x: 1, y: 2, clan: None });
    assert_eq!(
        pack_command(&vec!["move", "1", "2", "3", "4"]),
        PackCommand::Move { x: 1, y: 2, to: Some((3, 4)) }
    );
    assert_eq!(pack_command(&vec!["move", "1"]), PackCommand::Usage(CMD_USAGE_PACK_MOVE));
    assert_eq!(pack_command(&vec!["type", "1", "2", "G"]), PackCommand::SetType { x: 1, y: 2, code: Some("G") });
    assert_eq!(pack_command(&vec!["paint", "1", "2"]), PackCommand::Usage(CMD_USAGE_PACK));
}
