//! Reading and writing of resolver configuration files (`resolv.conf`).
//!
//! A file is read with [`Config::parse`] or, under the rules of a chosen
//! dialect, with [`Config::parse_with`]; a configuration is written with
//! [`Config::to_string`]. What a file means is stated, line by line, in
//! [`grammar`]; what a configuration is written as, in [`format`]. What holds
//! of reading and writing whatever the file is proved in [`laws`] and
//! [`round_trip`].

pub mod config;
pub mod format;
pub mod grammar;
pub mod ip;
pub mod ip_laws;
pub mod laws;
pub mod number;
pub mod options;
pub mod progress;
pub mod round_trip;
pub mod seqs;
pub mod text;
pub mod text_laws;
pub mod words_laws;

pub use config::{
    domain_from_host, Config, ConfigView, Dialect, DomainIter, ErrorPolicy, Family, LastSearch,
    Lookup, LookupView, OptionName, OptionsView,
};
pub use grammar::ParseError;
pub use ip::{AddrParseError, IpAddr, Ipv4Addr, Ipv6Addr, Network, ScopedIp, ScopedIpView};
