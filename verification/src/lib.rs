//! A DNS-driven egress firewall for development containers.
//!
//! Every lookup is matched against an allow-list, and the addresses of allowed names are
//! injected into nftables sets as they resolve, so egress is permitted to what was just looked
//! up. This crate holds the decisions: what a pattern file allows, which ranges a seed list
//! gives, what the nftables scripts say, what to do about each event of a DNS exchange, and in
//! which order the daemon starts. Whoever uses it performs the I/O.
//!
//! - [`text`], [`addr`], [`net`]: text, addresses and ranges.
//! - [`matcher`]: the regex and glob engines.
//! - [`config`]: pattern files. [`meta`]: seed lists in JSON.
//! - [`nft`]: the ruleset and the injections. [`setup`]: what the ruleset is built from.
//! - [`dns`]: one exchange with a client. [`daemon`]: the bootstrap. [`verify`]: the checks at
//!   its end. [`cli`]: the command line.
//!
//! The modules whose names end in `_laws` state and prove what holds of all inputs.

pub mod addr;
pub mod addr_laws;
pub mod cli;
pub mod cli_laws;
pub mod config;
pub mod config_laws;
pub mod config_line_laws;
pub mod config_text_laws;
pub mod daemon;
pub mod dns;
pub mod dns_laws;
pub mod matcher;
pub mod meta;
pub mod meta_laws;
pub mod net;
pub mod net_laws;
pub mod nft;
pub mod nft_laws;
pub mod nft_line_laws;
pub mod nft_text_laws;
pub mod report_laws;
pub mod run_laws;
pub mod setup;
pub mod setup_laws;
pub mod text;
pub mod text_laws;
pub mod verify;
pub mod view_laws;
