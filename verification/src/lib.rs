pub mod http_client;
pub mod install;
pub mod json;
pub mod paths;
pub mod ports;
pub mod relay_proxy;
pub mod settings;
pub mod text;
pub mod watcher;
