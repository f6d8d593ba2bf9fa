//! A small client for the anondns.net dynamic-DNS service: the request URLs,
//! the IPv4 text form, and the rules that turn a reply into a result.
pub mod address;
pub mod api;
pub mod error;
