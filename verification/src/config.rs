//! The bot's configuration and the store that hands out the current one.

use std::sync::Arc;
use vstd::prelude::*;

verus! {

/// The settings the bot runs with; identifiers are Discord snowflakes.
#[derive(Debug)]
pub struct Config {
    pub discord_token: String,
    pub guild_id: u64,
    pub owners: Vec<u64>,
    pub rcon_ip: String,
    pub rcon_port: String,
    pub rcon_pass: String,
    pub can_members_change_social_credit: bool,
    pub social_credit_objective: String,
    pub member_role: u64,
    pub provisional_role: u64,
    pub friend_role: u64,
    pub patron_tier_1_role: u64,
    pub patron_tier_2_role: u64,
    pub patron_tier_3_role: u64,
    pub patron_tier_4_role: u64,
    pub patron_tier_5_role: u64,
}

/// Holds the configuration in force; readers get a shared snapshot of it.
pub struct ConfigStore {
    current: Arc<Config>,
}

impl ConfigStore {
    /// The configuration in force.
    pub closed spec fn config(self) -> Config {
        *self.current
    }

    /// A store whose configuration in force is `config`.
    pub fn new(config: Config) -> (store: ConfigStore)
        ensures
            store.config() == config,
    {
        ConfigStore { current: Arc::new(config) }
    }
}

/// `Arc::clone`: another pointer to the same allocation, so the same value.
#[verifier::external_body]
fn share(config: &Arc<Config>) -> (copy: Arc<Config>)
    ensures
        *copy == **config,
{
    Arc::clone(config)
}

/// A snapshot of the configuration in force; a later `reload` does not change it.
pub fn get(store: &ConfigStore) -> (config: Arc<Config>)
    ensures
        *config == store.config(),
{
    share(&store.current)
}

/// Puts a freshly loaded configuration in force. When loading failed, the
/// configuration in force stays as it was and the load error is returned.
pub fn reload<E>(store: &mut ConfigStore, loaded: Result<Config, E>) -> (res: Result<(), E>)
    ensures
        match loaded {
            Ok(config) => res is Ok && final(store).config() == config,
            Err(err) => res == Err::<(), E>(err) && final(store).config() == old(store).config(),
        },
{
    match loaded {
        Ok(config) => {
            store.current = Arc::new(config);
            Ok(())
        },
        Err(err) => Err(err),
    }
}

/// What `get` gives back after a `reload`: the configuration that was loaded
/// when loading succeeded, and the previous one when it failed.
pub proof fn lemma_get_after_reload<E>(
    before: ConfigStore,
    loaded: Result<Config, E>,
    after: ConfigStore,
    snapshot: Config,
)
    requires
        match loaded {
            Ok(config) => after.config() == config,
            Err(_) => after.config() == before.config(),
        },
        snapshot == after.config(),
    ensures
        loaded is Ok ==> snapshot == loaded->Ok_0,
        loaded is Err ==> snapshot == before.config(),
{
}

} // verus!
