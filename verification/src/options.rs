//! The options of a configuration by name.

use crate::config::{Config, Dialect, OptionName};
use crate::text::is_text;
use vstd::prelude::*;

verus! {

/// The name of an option as it is written behind `options`.
pub open spec fn option_text(o: OptionName) -> Seq<char> {
    match o {
        OptionName::Debug => "debug"@,
        OptionName::Ndots => "ndots"@,
        OptionName::Timeout => "timeout"@,
        OptionName::Attempts => "attempts"@,
        OptionName::Rotate => "rotate"@,
        OptionName::NoCheckNames => "no-check-names"@,
        OptionName::Inet6 => "inet6"@,
        OptionName::Ip6Bytestring => "ip6-bytestring"@,
        OptionName::Ip6Dotint => "ip6-dotint"@,
        OptionName::NoIp6Dotint => "no-ip6-dotint"@,
        OptionName::Edns0 => "edns0"@,
        OptionName::SingleRequest => "single-request"@,
        OptionName::SingleRequestReopen => "single-request-reopen"@,
        OptionName::NoTldQuery => "no-tld-query"@,
        OptionName::UseVc => "use-vc"@,
        OptionName::NoReload => "no-reload"@,
        OptionName::TrustAd => "trust-ad"@,
        OptionName::NoAaaa => "no-aaaa"@,
    }
}

/// The option that a name stands for. Names are matched letter for letter.
pub open spec fn option_named(key: Seq<char>) -> Option<OptionName> {
    if key == "debug"@ {
        Some(OptionName::Debug)
    } else if key == "ndots"@ {
        Some(OptionName::Ndots)
    } else if key == "timeout"@ {
        Some(OptionName::Timeout)
    } else if key == "attempts"@ {
        Some(OptionName::Attempts)
    } else if key == "rotate"@ {
        Some(OptionName::Rotate)
    } else if key == "no-check-names"@ {
        Some(OptionName::NoCheckNames)
    } else if key == "inet6"@ {
        Some(OptionName::Inet6)
    } else if key == "ip6-bytestring"@ {
        Some(OptionName::Ip6Bytestring)
    } else if key == "ip6-dotint"@ {
        Some(OptionName::Ip6Dotint)
    } else if key == "no-ip6-dotint"@ {
        Some(OptionName::NoIp6Dotint)
    } else if key == "edns0"@ {
        Some(OptionName::Edns0)
    } else if key == "single-request"@ {
        Some(OptionName::SingleRequest)
    } else if key == "single-request-reopen"@ {
        Some(OptionName::SingleRequestReopen)
    } else if key == "no-tld-query"@ {
        Some(OptionName::NoTldQuery)
    } else if key == "use-vc"@ {
        Some(OptionName::UseVc)
    } else if key == "no-reload"@ {
        Some(OptionName::NoReload)
    } else if key == "trust-ad"@ {
        Some(OptionName::TrustAd)
    } else if key == "no-aaaa"@ {
        Some(OptionName::NoAaaa)
    } else {
        None
    }
}

/// The name of an option as it is written behind `options`.
pub fn option_str(o: OptionName) -> (r: &'static str)
    ensures
        r@ == option_text(o),
{
    match o {
        OptionName::Debug => "debug",
        OptionName::Ndots => "ndots",
        OptionName::Timeout => "timeout",
        OptionName::Attempts => "attempts",
        OptionName::Rotate => "rotate",
        OptionName::NoCheckNames => "no-check-names",
        OptionName::Inet6 => "inet6",
        OptionName::Ip6Bytestring => "ip6-bytestring",
        OptionName::Ip6Dotint => "ip6-dotint",
        OptionName::NoIp6Dotint => "no-ip6-dotint",
        OptionName::Edns0 => "edns0",
        OptionName::SingleRequest => "single-request",
        OptionName::SingleRequestReopen => "single-request-reopen",
        OptionName::NoTldQuery => "no-tld-query",
        OptionName::UseVc => "use-vc",
        OptionName::NoReload => "no-reload",
        OptionName::TrustAd => "trust-ad",
        OptionName::NoAaaa => "no-aaaa",
    }
}

/// Looks an option up by its name.
pub fn find_option(key: &[char]) -> (r: Option<OptionName>)
    ensures
        r == option_named(key@),
{
    if is_text(key, "debug") {
        Some(OptionName::Debug)
    } else if is_text(key, "ndots") {
        Some(OptionName::Ndots)
    } else if is_text(key, "timeout") {
        Some(OptionName::Timeout)
    } else if is_text(key, "attempts") {
        Some(OptionName::Attempts)
    } else if is_text(key, "rotate") {
        Some(OptionName::Rotate)
    } else if is_text(key, "no-check-names") {
        Some(OptionName::NoCheckNames)
    } else if is_text(key, "inet6") {
        Some(OptionName::Inet6)
    } else if is_text(key, "ip6-bytestring") {
        Some(OptionName::Ip6Bytestring)
    } else if is_text(key, "ip6-dotint") {
        Some(OptionName::Ip6Dotint)
    } else if is_text(key, "no-ip6-dotint") {
        Some(OptionName::NoIp6Dotint)
    } else if is_text(key, "edns0") {
        Some(OptionName::Edns0)
    } else if is_text(key, "single-request") {
        Some(OptionName::SingleRequest)
    } else if is_text(key, "single-request-reopen") {
        Some(OptionName::SingleRequestReopen)
    } else if is_text(key, "no-tld-query") {
        Some(OptionName::NoTldQuery)
    } else if is_text(key, "use-vc") {
        Some(OptionName::UseVc)
    } else if is_text(key, "no-reload") {
        Some(OptionName::NoReload)
    } else if is_text(key, "trust-ad") {
        Some(OptionName::TrustAd)
    } else if is_text(key, "no-aaaa") {
        Some(OptionName::NoAaaa)
    } else {
        None
    }
}

/// Tells whether the option is written with a number behind a colon.
pub fn option_takes_number(o: OptionName) -> (r: bool)
    ensures
        r == o.takes_number(),
{
    match o {
        OptionName::Ndots => true,
        OptionName::Timeout => true,
        OptionName::Attempts => true,
        _ => false,
    }
}

/// Tells whether a dialect knows the option.
pub fn option_known_to(o: OptionName, dialect: Dialect) -> (r: bool)
    ensures
        r == o.known_to(dialect),
{
    match dialect {
        Dialect::MacStyle => match o {
            OptionName::Debug => true,
            OptionName::Timeout => true,
            OptionName::Ndots => true,
            _ => false,
        },
        _ => true,
    }
}

impl Config {
    /// Applies an option that is a flag.
    pub fn set_flag(&mut self, o: OptionName)
        ensures
            final(self)@ == old(self)@.with_flag(o),
    {
        match o {
            OptionName::Debug => self.put_debug(true),
            OptionName::Rotate => self.put_rotate(true),
            OptionName::NoCheckNames => self.put_no_check_names(true),
            OptionName::Inet6 => self.put_inet6(true),
            OptionName::Ip6Bytestring => self.put_ip6_bytestring(true),
            OptionName::Ip6Dotint => self.put_ip6_dotint(true),
            OptionName::NoIp6Dotint => self.put_ip6_dotint(false),
            OptionName::Edns0 => self.put_edns0(true),
            OptionName::SingleRequest => self.put_single_request(true),
            OptionName::SingleRequestReopen => self.put_single_request_reopen(true),
            OptionName::NoTldQuery => self.put_no_tld_query(true),
            OptionName::UseVc => self.put_use_vc(true),
            OptionName::NoReload => self.put_no_reload(true),
            OptionName::TrustAd => self.put_trust_ad(true),
            OptionName::NoAaaa => self.put_no_aaaa(true),
            _ => {},
        }
    }

    /// Gives a numeric option its value.
    pub fn set_number(&mut self, o: OptionName, n: u32)
        ensures
            final(self)@ == old(self)@.with_number(o, n),
    {
        match o {
            OptionName::Ndots => self.put_ndots(n),
            OptionName::Timeout => self.put_timeout(n),
            OptionName::Attempts => self.put_attempts(n),
            _ => {},
        }
    }
}

} // verus!
