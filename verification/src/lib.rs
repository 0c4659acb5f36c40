//! OneShare: access control, path mapping and request policy for a
//! self-hosted file-sharing server.
pub mod acl;
pub mod admin;
pub mod acl_laws;
pub mod config;
pub mod files;
pub mod gateway;
pub mod legacy_acl;
pub mod listing;
pub mod login;
pub mod models;
pub mod oidc;
pub mod rows;
pub mod session;
pub mod shadow;
pub mod share;
pub mod statics;
pub mod status;
pub mod text;
pub mod token;
