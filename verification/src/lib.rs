//! The decisions of an IPTV / HLS streaming proxy.
//!
//! A player asks the proxy for `/?url=<encoded address>`. The library decides
//! what to answer or what to ask the origin for ([`handler`]), what to do with
//! the origin's answer ([`reply`]), and how a playlist is rewritten so that
//! everything in it is fetched through the proxy ([`playlist`]). Which
//! addresses of a host are used is decided in [`resolver`], and how the proxy
//! is set up in [`config`] and [`system_proxy`]. What holds of all this
//! together is stated in [`laws`]; what becomes of each kind of line, request,
//! answer and setting in [`laws_playlist`], [`laws_request`], [`laws_reply`] and
//! [`laws_setup`], and what the operations on text do in [`laws_text`].
pub mod address;
pub mod config;
pub mod handler;
pub mod headers;
pub mod laws;
pub mod laws_playlist;
pub mod laws_reply;
pub mod laws_request;
pub mod laws_setup;
pub mod laws_text;
pub mod percent;
pub mod playlist;
pub mod reply;
pub mod resolver;
pub mod system_proxy;
pub mod target;
pub mod text;
