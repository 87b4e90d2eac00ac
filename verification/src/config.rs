//! Deployment configuration of the caller: the manager, the target
//! chat and the admin list. The caller loads it at startup and passes
//! it to these gates.

use vstd::prelude::*;
use crate::db::UserID;

verus! {

/// Configuration values the caller gates commands on.
#[derive(Debug, Clone, PartialEq, Eq)]
pub struct Config {
    pub manager: UserID,
    pub target_chat: i64,
    pub admin_users: Vec<UserID>,
}

/// The chat every raffle is announced in.
pub fn target_chat(config: &Config) -> (r: i64)
    ensures
        r == config.target_chat,
{
    config.target_chat
}

/// Whether `user_id` is the configured manager.
pub fn is_manager(config: &Config, user_id: UserID) -> (r: bool)
    ensures
        r == (user_id == config.manager),
{
    user_id == config.manager
}

/// Whether `user_id` may run admin commands: anyone on the admin list,
/// and always the manager.
pub fn is_admin(config: &Config, user_id: UserID) -> (r: bool)
    ensures
        r == (config.admin_users@.contains(user_id) || user_id == config.manager),
{
    let mut i: usize = 0;
    while i < config.admin_users.len()
        invariant
            i <= config.admin_users@.len(),
            forall|k: int| 0 <= k < i ==> config.admin_users@[k] != user_id,
        decreases config.admin_users@.len() - i,
    {
        if config.admin_users[i] == user_id {
            return true;
        }
        i = i + 1;
    }
    is_manager(config, user_id)
}

} // verus!
