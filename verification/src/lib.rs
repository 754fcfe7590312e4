//! The logic of an OpenCloud desktop explorer: the registry of configured
//! clouds, the reading of Graph API and WebDAV replies, and the OpenID
//! Connect login with PKCE.
pub mod bindings;
pub mod cloud;
pub mod graph;
pub mod oidc;
pub mod order;
pub mod text;
pub mod webdav;
pub mod window;
