//! How the client that requests are sent with is set up.

use crate::text;
use vstd::prelude::*;

verus! {

/// What a client is built with. Times are in seconds.
#[derive(Debug, Clone, PartialEq, Eq)]
pub struct ClientSettings {
    pub user_agent: String,
    pub connect_timeout: u64,
    pub timeout: u64,
    pub tcp_keepalive: u64,
    pub pool_idle_timeout: u64,
    pub pool_max_idle_per_host: usize,
}

/// The name that a client gives itself: the one asked for, without white space around it, or the
/// name and version of the application if none is asked for.
pub open spec fn user_agent_of(user_agent: Seq<char>, version: Seq<char>) -> Seq<char> {
    if text::trimmed(user_agent).len() == 0 {
        "CodexPlusPlus/"@ + version
    } else {
        text::trimmed(user_agent)
    }
}

/// What a client is built with. The times leave room for responses that are streamed for
/// minutes.
pub fn client_settings(user_agent: &str, version: &str) -> (settings: ClientSettings)
    ensures
        settings.user_agent@ == user_agent_of(user_agent@, version@),
        settings.connect_timeout == 30,
        settings.timeout == 300,
        settings.tcp_keepalive == 60,
        settings.pool_idle_timeout == 120,
        settings.pool_max_idle_per_host == 32,
{
    let trimmed = text::trim(user_agent);
    let user_agent = if trimmed.as_str().is_empty() {
        "CodexPlusPlus/".to_owned().concat(version)
    } else {
        trimmed
    };
    ClientSettings {
        user_agent,
        connect_timeout: 30,
        timeout: 300,
        tcp_keepalive: 60,
        pool_idle_timeout: 120,
        pool_max_idle_per_host: 32,
    }
}

/// A client names itself as it was asked to, without the white space around the name, and by the
/// name and version of the application if it was asked for nothing.
pub proof fn law_client_names_itself(
    before: Seq<char>,
    name: Seq<char>,
    after: Seq<char>,
    version: Seq<char>,
)
    requires
        text::is_blank(before),
        text::is_tight(name),
        text::is_blank(after),
    ensures
        name.len() > 0 ==> user_agent_of(before + name + after, version) == name,
        name.len() == 0 ==> user_agent_of(before + name + after, version) == "CodexPlusPlus/"@
            + version,
{
    text::law_trimming_takes_white_space(before, name, after);
}

} // verus!
