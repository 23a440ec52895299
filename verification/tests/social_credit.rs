use rustwave_bot::commands::social_credit::{
    check_amount, credit_embed, format_for_leaderboard, get_limit, has_member_or_provisional,
    image_plan, leaderboard_description, role_limits, sync_plan, CreditTemplate, TargetAction,
    TargetEvent, TargetFlow,
};
use rustwave_bot::config::Config;
use rustwave_bot::entity::social_credit_user::Model;

fn config(can_change: bool) -> Config {
    Config {
        discord_token: "token".to_string(),
        guild_id: 42,
        owners: vec![],
        rcon_ip: "10.0.0.2".to_string(),
        rcon_port: "25575".to_string(),
        rcon_pass: "hunter2".to_string(),
        can_members_change_social_credit: can_change,
        social_credit_objective: "social_credit".to_string(),
        member_role: 100,
        provisional_role: 101,
        friend_role: 102,
        patron_tier_1_role: 201,
        patron_tier_2_role: 202,
        patron_tier_3_role: 203,
        patron_tier_4_role: 204,
        patron_tier_5_role: 205,
    }
}

#[test]
fn role_limits_are_highest_first() {
    let table = role_limits(&config(false));
    assert_eq!(
        table,
        vec![(205, 10000), (204, 1500), (203, 500), (202, 200), (201, 100), (102, 20)]
    );
}

#[test]
fn limit_is_the_highest_held_role() {
    let table = role_limits(&config(false));
    assert_eq!(get_limit(&vec![], &table), 10_000);
    assert_eq!(get_limit(&vec![100], &table), 10_000);
    assert_eq!(get_limit(&vec![102], &table), 20_000);
    assert_eq!(get_limit(&vec![102, 201], &table), 100_000);
    assert_eq!(get_limit(&vec![201, 203, 102], &table), 500_000);
    assert_eq!(get_limit(&vec![205, 202], &table), 10_000_000);
}

#[test]
fn first_matching_entry_decides_in_an_unsorted_table() {
    let table = vec![(1, 5), (2, 50)];
    assert_eq!(get_limit(&vec![1, 2], &table), 5_000);
}

#[test]
fn member_or_provisional() {
    let c = config(false);
    assert!(has_member_or_provisional(&c, &vec![100]));
    assert!(has_member_or_provisional(&c, &vec![5, 101]));
    assert!(!has_member_or_provisional(&c, &vec![102, 205]));
    assert!(!has_member_or_provisional(&c, &vec![]));
}

#[test]
fn amount_checks() {
    assert_eq!(
        check_amount(0, 10_000),
        Err("Invalid amount! Pick an amount between -10000 and 10000 (excluding 0)".to_string())
    );
    assert_eq!(
        check_amount(10_001, 10_000),
        Err("Invalid amount! Pick an amount between -10000 and 10000".to_string())
    );
    assert_eq!(
        check_amount(i64::MIN, 10_000),
        Err("Invalid amount! Pick an amount between -10000 and 10000".to_string())
    );
    assert_eq!(check_amount(10_000, 10_000), Ok(()));
    assert_eq!(check_amount(-10_000, 10_000), Ok(()));
    assert_eq!(check_amount(1, 10_000), Ok(()));
}

#[test]
fn embed_for_a_gain_and_a_loss() {
    let gain = credit_embed(15, 11, 22, 40);
    assert_eq!(gain.description, "### +15 Social Credit to <@11> from <@22>");
    assert_eq!(gain.footer, "current social credit: 40");
    assert_eq!(gain.color, 0x2EB33E);
    assert_eq!(gain.image, "attachment://social_credit_image.png");
    assert_eq!(gain.attachment_name, "social_credit_image.png");
    let loss = credit_embed(-7, 11, 22, -3);
    assert_eq!(loss.description, "### -7 Social Credit to <@11> from <@22>");
    assert_eq!(loss.footer, "current social credit: -3");
    assert_eq!(loss.color, 0xC24A3F);
}

#[test]
fn image_plans() {
    let minus = image_plan(-1500);
    assert_eq!(minus.template, CreditTemplate::Minus);
    assert_eq!(minus.text, "1500");
    let plus = image_plan(250);
    assert_eq!(plus.template, CreditTemplate::Plus);
    assert_eq!(plus.text, "250");
    assert_eq!(image_plan(i64::MIN).text, "9223372036854775808");
}

#[test]
fn sync_needs_an_in_game_name() {
    let c = config(false);
    let nameless = Model { id: 5, social_credit: 10, ign: None };
    assert!(sync_plan(&nameless, &c).is_none());
    let named = Model { id: 5, social_credit: -25, ign: Some("Steve".to_string()) };
    let plan = sync_plan(&named, &c).unwrap();
    assert_eq!(plan.address, "10.0.0.2:25575");
    assert_eq!(plan.password, "hunter2");
    assert_eq!(plan.command, "scoreboard players set Steve social_credit -25");
}

#[test]
fn sync_score_is_cut_to_32_bits() {
    let c = config(false);
    let big = Model { id: 5, social_credit: (1i64 << 32) + 5, ign: Some("A".to_string()) };
    assert_eq!(sync_plan(&big, &c).unwrap().command, "scoreboard players set A social_credit 5");
    let over = Model { id: 5, social_credit: 2_147_483_648, ign: Some("A".to_string()) };
    assert_eq!(
        sync_plan(&over, &c).unwrap().command,
        "scoreboard players set A social_credit -2147483648"
    );
}

#[test]
fn leaderboard_lines() {
    let users = vec![
        Model { id: 1001, social_credit: 500, ign: None },
        Model { id: 1002, social_credit: -20, ign: Some("x".to_string()) },
        Model { id: -1, social_credit: 0, ign: None },
    ];
    assert_eq!(
        format_for_leaderboard(users),
        "0. <@1001>: 500\n1. <@1002>: -20\n2. <@18446744073709551615>: 0"
    );
    assert_eq!(format_for_leaderboard(vec![]), "");
}

#[test]
fn leaderboard_message() {
    let top = "0. <@1>: 9".to_string();
    let bottom = "0. <@2>: -9".to_string();
    assert_eq!(
        leaderboard_description(&top, &bottom),
        "\n\t\t## Social Credit Leaderboard\n\t\t**Top 5**\n\t\t0. <@1>: 9\n\n\t\t**Bottom 5**\n\t\t0. <@2>: -9\n\t\t"
    );
}

fn flow(can_change: bool, amount: i64) -> TargetFlow {
    let c = config(can_change);
    TargetFlow::new(&c, role_limits(&c), 77, amount)
}

#[test]
fn target_without_member_role_is_refused() {
    let mut f = flow(false, 5);
    let action = f.step(TargetEvent::Begin { target_roles: vec![102] });
    match action {
        TargetAction::Reply { message } => {
            assert_eq!(message, "Target must be a Member or a Provisional!")
        }
        other => panic!("unexpected {other:?}"),
    }
    assert!(f.is_done());
}

#[test]
fn member_author_is_refused_when_members_cannot_change() {
    let mut f = flow(false, 5);
    assert!(matches!(f.step(TargetEvent::Begin { target_roles: vec![100] }), TargetAction::FetchAuthor));
    let action = f.step(TargetEvent::AuthorFound { author_id: 9, author_roles: vec![101, 205] });
    match action {
        TargetAction::Reply { message } => assert_eq!(message, "Nuh-uh"),
        other => panic!("unexpected {other:?}"),
    }
    assert!(f.is_done());
}

#[test]
fn missing_author_fails() {
    let mut f = flow(true, 5);
    f.step(TargetEvent::Begin { target_roles: vec![101] });
    match f.step(TargetEvent::AuthorMissing) {
        TargetAction::Fail { message } => assert_eq!(message, "Could not get author member"),
        other => panic!("unexpected {other:?}"),
    }
}

#[test]
fn amount_over_limit_is_refused() {
    let mut f = flow(true, 25_000);
    f.step(TargetEvent::Begin { target_roles: vec![100] });
    match f.step(TargetEvent::AuthorFound { author_id: 9, author_roles: vec![102] }) {
        TargetAction::Reply { message } => {
            assert_eq!(message, "Invalid amount! Pick an amount between -20000 and 20000")
        }
        other => panic!("unexpected {other:?}"),
    }
    assert!(f.is_done());
}

#[test]
fn new_target_gets_a_record() {
    let mut f = flow(true, -300);
    f.step(TargetEvent::Begin { target_roles: vec![100] });
    match f.step(TargetEvent::AuthorFound { author_id: 9, author_roles: vec![100] }) {
        TargetAction::DeferAndLoad { id } => assert_eq!(id, 77),
        other => panic!("unexpected {other:?}"),
    }
    let ev = TargetEvent::Loaded { stored: None };
    assert!(f.can_take(&ev));
    match f.step(ev) {
        TargetAction::Insert { user } => {
            assert_eq!(user, Model { id: 77, social_credit: -300, ign: None })
        }
        other => panic!("unexpected {other:?}"),
    }
    let saved = Model { id: 77, social_credit: -300, ign: None };
    match f.step(TargetEvent::Saved { user: saved.clone() }) {
        TargetAction::Send { embed, image } => {
            assert_eq!(embed.description, "### -300 Social Credit to <@77> from <@9>");
            assert_eq!(embed.footer, "current social credit: -300");
            assert_eq!(embed.color, 0xC24A3F);
            assert_eq!(image.template, CreditTemplate::Minus);
            assert_eq!(image.text, "300");
        }
        other => panic!("unexpected {other:?}"),
    }
    assert!(!f.can_take(&TargetEvent::AuthorMissing));
    match f.step(TargetEvent::Replied) {
        TargetAction::Sync { user } => assert_eq!(user, saved),
        other => panic!("unexpected {other:?}"),
    }
    assert!(f.is_done());
    assert!(!f.can_take(&TargetEvent::Replied));
}

#[test]
fn known_target_gets_the_amount_added() {
    let mut f = flow(false, 1_000);
    f.step(TargetEvent::Begin { target_roles: vec![101] });
    f.step(TargetEvent::AuthorFound { author_id: 9, author_roles: vec![203] });
    let stored = Model { id: 77, social_credit: 250, ign: Some("Alex".to_string()) };
    match f.step(TargetEvent::Loaded { stored: Some(stored) }) {
        TargetAction::Update { user } => assert_eq!(
            user,
            Model { id: 77, social_credit: 1_250, ign: Some("Alex".to_string()) }
        ),
        other => panic!("unexpected {other:?}"),
    }
}

#[test]
fn overflowing_update_is_not_taken() {
    let mut f = flow(true, 10);
    f.step(TargetEvent::Begin { target_roles: vec![101] });
    f.step(TargetEvent::AuthorFound { author_id: 9, author_roles: vec![] });
    let ev = TargetEvent::Loaded { stored: Some(Model { id: 77, social_credit: i64::MAX, ign: None }) };
    assert!(!f.can_take(&ev));
}
