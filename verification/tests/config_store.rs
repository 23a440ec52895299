use rustwave_bot::config::{get, reload, Config, ConfigStore};

fn sample(objective: &str, can_change: bool) -> Config {
    Config {
        discord_token: "token".to_string(),
        guild_id: 42,
        owners: vec![7, 8],
        rcon_ip: "127.0.0.1".to_string(),
        rcon_port: "25575".to_string(),
        rcon_pass: "secret".to_string(),
        can_members_change_social_credit: can_change,
        social_credit_objective: objective.to_string(),
        member_role: 100,
        provisional_role: 101,
        friend_role: 102,
        patron_tier_1_role: 201,
        patron_tier_2_role: 202,
        patron_tier_3_role: 203,
        patron_tier_4_role: 204,
        patron_tier_5_role: 205,
    }
}

#[test]
fn get_returns_the_initial_config() {
    let store = ConfigStore::new(sample("credit", false));
    let config = get(&store);
    assert_eq!(config.social_credit_objective, "credit");
    assert_eq!(config.guild_id, 42);
    assert_eq!(config.owners, vec![7, 8]);
}

#[test]
fn reload_puts_the_loaded_config_in_force() {
    let mut store = ConfigStore::new(sample("credit", false));
    let res: Result<(), String> = reload(&mut store, Ok(sample("score", true)));
    assert!(res.is_ok());
    let config = get(&store);
    assert_eq!(config.social_credit_objective, "score");
    assert!(config.can_members_change_social_credit);
}

#[test]
fn failed_reload_keeps_the_old_config() {
    let mut store = ConfigStore::new(sample("credit", false));
    let res = reload(&mut store, Err("config.json is missing".to_string()));
    assert_eq!(res, Err("config.json is missing".to_string()));
    assert_eq!(get(&store).social_credit_objective, "credit");
}

#[test]
fn snapshot_survives_reload() {
    let mut store = ConfigStore::new(sample("credit", false));
    let before = get(&store);
    let _ = reload::<String>(&mut store, Ok(sample("score", true)));
    assert_eq!(before.social_credit_objective, "credit");
    assert_eq!(get(&store).social_credit_objective, "score");
}
