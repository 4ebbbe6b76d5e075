//! What the settings say to the relay proxy.

use vstd::prelude::*;

verus! {

/// A relay profile: the services that it names, and what its mode asks of the relay proxy.
#[derive(Debug, Clone, PartialEq, Eq)]
pub struct RelayProfile {
    pub base_url: String,
    pub api_key: String,
    pub image_generation_base_url: String,
    pub image_generation_api_key: String,
    /// Whether requests of the profile go through the local relay proxy.
    pub local_relay_proxy: bool,
    /// Whether the profile has a service of its own for image generation.
    pub separate_image_generation_api: bool,
}

impl RelayProfile {
    /// Whether requests of the profile go through the local relay proxy.
    pub fn needs_local_relay_proxy(&self) -> (needed: bool)
        ensures
            needed == self.local_relay_proxy,
    {
        self.local_relay_proxy
    }

    /// Whether the profile has a service of its own for image generation.
    pub fn uses_separate_image_generation_api(&self) -> (separate: bool)
        ensures
            separate == self.separate_image_generation_api,
    {
        self.separate_image_generation_api
    }
}

} // verus!
