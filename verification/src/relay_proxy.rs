//! The local relay proxy: which service a request goes to, and what is sent there.

pub mod exchange;
pub mod request;
pub mod response;
pub mod routing;
pub mod target;

pub use routing::{route_request, RelayRoute, RoutedRequest};
pub use target::{target_url, RelayProxyConfig};
