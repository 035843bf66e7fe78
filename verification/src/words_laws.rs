//! The words of the grammar and the names of the options, as texts.

use crate::config::OptionName;
use crate::options::{option_named, option_text};
use crate::text::{is_word, is_word_char};
use vstd::prelude::*;

verus! {

/// An index into a short text is one of the numbers below its length.
proof fn lemma_index(i: int)
    requires
        0 <= i < 24,
    ensures
        i == 0 || i == 1 || i == 2 || i == 3 || i == 4 || i == 5 || i == 6 || i == 7 || i == 8
            || i == 9 || i == 10 || i == 11 || i == 12 || i == 13 || i == 14 || i == 15 || i == 16
            || i == 17 || i == 18 || i == 19 || i == 20 || i == 21 || i == 22 || i == 23,
{
}

/// A character of a word that is no colon.
spec fn is_plain(c: char) -> bool {
    is_word_char(c) && c != ':'
}

/// A text of such characters is a word without a colon.
proof fn lemma_plain(s: Seq<char>)
    requires
        s.len() > 0,
        forall|i: int| 0 <= i < s.len() ==> is_plain(#[trigger] s[i]),
    ensures
        is_word(s),
        !s.contains(':'),
{
    if s.contains(':') {
        let k = choose|k: int| 0 <= k < s.len() && s[k] == ':';
        assert(is_plain(s[k]));
    }
}

/// The words of the grammar: each is a word, they differ from one another,
/// and those that are written with a space or a colon behind them end in it.
pub proof fn lemma_keywords()
    ensures
        is_word("nameserver"@),
        is_word("domain"@),
        is_word("search"@),
        is_word("sortlist"@),
        is_word("options"@),
        is_word("lookup"@),
        is_word("family"@),
        is_word("port"@),
        is_word("file"@),
        is_word("bind"@),
        is_word("inet4"@),
        is_word("inet6"@),
        "nameserver"@.len() == 10,
        "nameserver"@[0] == 'n',
        "domain"@.len() == 6,
        "domain"@[0] == 'd',
        "search"@.len() == 6,
        "search"@[0] == 's',
        "sortlist"@.len() == 8,
        "sortlist"@[0] == 's',
        "options"@.len() == 7,
        "options"@[0] == 'o',
        "lookup"@.len() == 6,
        "lookup"@[0] == 'l',
        "family"@.len() == 6,
        "family"@[0] == 'f',
        "port"@.len() == 4,
        "port"@[0] == 'p',
        "file"@.len() == 4,
        "file"@[0] == 'f',
        "bind"@.len() == 4,
        "bind"@[0] == 'b',
        "inet4"@.len() == 5,
        "inet4"@[0] == 'i',
        "inet6"@.len() == 5,
        "inet6"@[0] == 'i',
        "nameserver "@ == "nameserver"@.push(' '),
        "domain "@ == "domain"@.push(' '),
        "options "@ == "options"@.push(' '),
        "port:"@ == "port"@.push(':'),
        "nameserver"@ != "domain"@,
        "nameserver"@ != "search"@,
        "nameserver"@ != "sortlist"@,
        "nameserver"@ != "options"@,
        "nameserver"@ != "lookup"@,
        "nameserver"@ != "family"@,
        "domain"@ != "search"@,
        "domain"@ != "sortlist"@,
        "domain"@ != "options"@,
        "domain"@ != "lookup"@,
        "domain"@ != "family"@,
        "search"@ != "sortlist"@,
        "search"@ != "options"@,
        "search"@ != "lookup"@,
        "search"@ != "family"@,
        "sortlist"@ != "options"@,
        "sortlist"@ != "lookup"@,
        "sortlist"@ != "family"@,
        "options"@ != "lookup"@,
        "options"@ != "family"@,
        "lookup"@ != "family"@,
        "file"@ != "bind"@,
        "inet4"@ != "inet6"@,
        !"port"@.contains(':'),
{
    reveal_strlit("nameserver");
    reveal_strlit("domain");
    reveal_strlit("search");
    reveal_strlit("sortlist");
    reveal_strlit("options");
    reveal_strlit("lookup");
    reveal_strlit("family");
    reveal_strlit("port");
    reveal_strlit("file");
    reveal_strlit("bind");
    reveal_strlit("inet4");
    reveal_strlit("inet6");
    assert(is_word("nameserver"@)) by {
        reveal_strlit("nameserver");
        let s = "nameserver"@;
        assert forall|i: int| 0 <= i < s.len() implies is_plain(#[trigger] s[i]) by {
            lemma_index(i);
        }
        lemma_plain(s);
    }
    assert(is_word("domain"@)) by {
        reveal_strlit("domain");
        let s = "domain"@;
        assert forall|i: int| 0 <= i < s.len() implies is_plain(#[trigger] s[i]) by {
            lemma_index(i);
        }
        lemma_plain(s);
    }
    assert(is_word("search"@)) by {
        reveal_strlit("search");
        let s = "search"@;
        assert forall|i: int| 0 <= i < s.len() implies is_plain(#[trigger] s[i]) by {
            lemma_index(i);
        }
        lemma_plain(s);
    }
    assert(is_word("sortlist"@)) by {
        reveal_strlit("sortlist");
        let s = "sortlist"@;
        assert forall|i: int| 0 <= i < s.len() implies is_plain(#[trigger] s[i]) by {
            lemma_index(i);
        }
        lemma_plain(s);
    }
    assert(is_word("options"@)) by {
        reveal_strlit("options");
        let s = "options"@;
        assert forall|i: int| 0 <= i < s.len() implies is_plain(#[trigger] s[i]) by {
            lemma_index(i);
        }
        lemma_plain(s);
    }
    assert(is_word("lookup"@)) by {
        reveal_strlit("lookup");
        let s = "lookup"@;
        assert forall|i: int| 0 <= i < s.len() implies is_plain(#[trigger] s[i]) by {
            lemma_index(i);
        }
        lemma_plain(s);
    }
    assert(is_word("family"@)) by {
        reveal_strlit("family");
        let s = "family"@;
        assert forall|i: int| 0 <= i < s.len() implies is_plain(#[trigger] s[i]) by {
            lemma_index(i);
        }
        lemma_plain(s);
    }
    assert(is_word("port"@)) by {
        reveal_strlit("port");
        let s = "port"@;
        assert forall|i: int| 0 <= i < s.len() implies is_plain(#[trigger] s[i]) by {
            lemma_index(i);
        }
        lemma_plain(s);
    }
    assert(is_word("file"@)) by {
        reveal_strlit("file");
        let s = "file"@;
        assert forall|i: int| 0 <= i < s.len() implies is_plain(#[trigger] s[i]) by {
            lemma_index(i);
        }
        lemma_plain(s);
    }
    assert(is_word("bind"@)) by {
        reveal_strlit("bind");
        let s = "bind"@;
        assert forall|i: int| 0 <= i < s.len() implies is_plain(#[trigger] s[i]) by {
            lemma_index(i);
        }
        lemma_plain(s);
    }
    assert(is_word("inet4"@)) by {
        reveal_strlit("inet4");
        let s = "inet4"@;
        assert forall|i: int| 0 <= i < s.len() implies is_plain(#[trigger] s[i]) by {
            lemma_index(i);
        }
        lemma_plain(s);
    }
    assert(is_word("inet6"@)) by {
        reveal_strlit("inet6");
        let s = "inet6"@;
        assert forall|i: int| 0 <= i < s.len() implies is_plain(#[trigger] s[i]) by {
            lemma_index(i);
        }
        lemma_plain(s);
    }
    assert("nameserver "@ =~= "nameserver"@.push(' ')) by {
        reveal_strlit("nameserver ");
        reveal_strlit("nameserver");
    }
    assert("domain "@ =~= "domain"@.push(' ')) by {
        reveal_strlit("domain ");
        reveal_strlit("domain");
    }
    assert("options "@ =~= "options"@.push(' ')) by {
        reveal_strlit("options ");
        reveal_strlit("options");
    }
    assert("port:"@ =~= "port"@.push(':')) by {
        reveal_strlit("port:");
        reveal_strlit("port");
    }
    assert("domain"@[0] != "search"@[0]);
    assert("domain"@[0] != "lookup"@[0]);
    assert("domain"@[0] != "family"@[0]);
    assert("search"@[0] != "lookup"@[0]);
    assert("search"@[0] != "family"@[0]);
    assert("lookup"@[0] != "family"@[0]);
    assert("file"@[0] != "bind"@[0]);
    assert("inet4"@[4] != "inet6"@[4]);
    assert(!"port"@.contains(':')) by {
        reveal_strlit("port");
        let s = "port"@;
        assert forall|i: int| 0 <= i < s.len() implies is_plain(#[trigger] s[i]) by {
            lemma_index(i);
        }
        lemma_plain(s);
    }
}

/// The names of the options: each is a word without a colon, and names the
/// option that is written as it.
pub proof fn lemma_option_names(o: OptionName)
    ensures
        option_named(option_text(o)) == Some(o),
        is_word(option_text(o)),
        !option_text(o).contains(':'),
{
    reveal_strlit("debug");
    reveal_strlit("ndots");
    reveal_strlit("timeout");
    reveal_strlit("attempts");
    reveal_strlit("rotate");
    reveal_strlit("no-check-names");
    reveal_strlit("inet6");
    reveal_strlit("ip6-bytestring");
    reveal_strlit("ip6-dotint");
    reveal_strlit("no-ip6-dotint");
    reveal_strlit("edns0");
    reveal_strlit("single-request");
    reveal_strlit("single-request-reopen");
    reveal_strlit("no-tld-query");
    reveal_strlit("use-vc");
    reveal_strlit("no-reload");
    reveal_strlit("trust-ad");
    reveal_strlit("no-aaaa");
    match o {
        OptionName::Debug => {
            let s = "debug"@;
            assert forall|i: int| 0 <= i < s.len() implies is_plain(#[trigger] s[i]) by {
                lemma_index(i);
            }
            lemma_plain(s);
        },
        OptionName::Ndots => {
            assert("ndots"@[0] != "debug"@[0]);
            let s = "ndots"@;
            assert forall|i: int| 0 <= i < s.len() implies is_plain(#[trigger] s[i]) by {
                lemma_index(i);
            }
            lemma_plain(s);
        },
        OptionName::Timeout => {
            assert("timeout"@.len() != "debug"@.len());
            assert("timeout"@.len() != "ndots"@.len());
            let s = "timeout"@;
            assert forall|i: int| 0 <= i < s.len() implies is_plain(#[trigger] s[i]) by {
                lemma_index(i);
            }
            lemma_plain(s);
        },
        OptionName::Attempts => {
            assert("attempts"@.len() != "debug"@.len());
            assert("attempts"@.len() != "ndots"@.len());
            assert("attempts"@.len() != "timeout"@.len());
            let s = "attempts"@;
            assert forall|i: int| 0 <= i < s.len() implies is_plain(#[trigger] s[i]) by {
                lemma_index(i);
            }
            lemma_plain(s);
        },
        OptionName::Rotate => {
            assert("rotate"@.len() != "debug"@.len());
            assert("rotate"@.len() != "ndots"@.len());
            assert("rotate"@.len() != "timeout"@.len());
            assert("rotate"@.len() != "attempts"@.len());
            let s = "rotate"@;
            assert forall|i: int| 0 <= i < s.len() implies is_plain(#[trigger] s[i]) by {
                lemma_index(i);
            }
            lemma_plain(s);
        },
        OptionName::NoCheckNames => {
            assert("no-check-names"@.len() != "debug"@.len());
            assert("no-check-names"@.len() != "ndots"@.len());
            assert("no-check-names"@.len() != "timeout"@.len());
            assert("no-check-names"@.len() != "attempts"@.len());
            assert("no-check-names"@.len() != "rotate"@.len());
            let s = "no-check-names"@;
            assert forall|i: int| 0 <= i < s.len() implies is_plain(#[trigger] s[i]) by {
                lemma_index(i);
            }
            lemma_plain(s);
        },
        OptionName::Inet6 => {
            assert("inet6"@[0] != "debug"@[0]);
            assert("inet6"@[0] != "ndots"@[0]);
            assert("inet6"@.len() != "timeout"@.len());
            assert("inet6"@.len() != "attempts"@.len());
            assert("inet6"@.len() != "rotate"@.len());
            assert("inet6"@.len() != "no-check-names"@.len());
            let s = "inet6"@;
            assert forall|i: int| 0 <= i < s.len() implies is_plain(#[trigger] s[i]) by {
                lemma_index(i);
            }
            lemma_plain(s);
        },
        OptionName::Ip6Bytestring => {
            assert("ip6-bytestring"@.len() != "debug"@.len());
            assert("ip6-bytestring"@.len() != "ndots"@.len());
            assert("ip6-bytestring"@.len() != "timeout"@.len());
            assert("ip6-bytestring"@.len() != "attempts"@.len());
            assert("ip6-bytestring"@.len() != "rotate"@.len());
            assert("ip6-bytestring"@[0] != "no-check-names"@[0]);
            assert("ip6-bytestring"@.len() != "inet6"@.len());
            let s = "ip6-bytestring"@;
            assert forall|i: int| 0 <= i < s.len() implies is_plain(#[trigger] s[i]) by {
                lemma_index(i);
            }
            lemma_plain(s);
        },
        OptionName::Ip6Dotint => {
            assert("ip6-dotint"@.len() != "debug"@.len());
            assert("ip6-dotint"@.len() != "ndots"@.len());
            assert("ip6-dotint"@.len() != "timeout"@.len());
            assert("ip6-dotint"@.len() != "attempts"@.len());
            assert("ip6-dotint"@.len() != "rotate"@.len());
            assert("ip6-dotint"@.len() != "no-check-names"@.len());
            assert("ip6-dotint"@.len() != "inet6"@.len());
            assert("ip6-dotint"@.len() != "ip6-bytestring"@.len());
            let s = "ip6-dotint"@;
            assert forall|i: int| 0 <= i < s.len() implies is_plain(#[trigger] s[i]) by {
                lemma_index(i);
            }
            lemma_plain(s);
        },
        OptionName::NoIp6Dotint => {
            assert("no-ip6-dotint"@.len() != "debug"@.len());
            assert("no-ip6-dotint"@.len() != "ndots"@.len());
            assert("no-ip6-dotint"@.len() != "timeout"@.len());
            assert("no-ip6-dotint"@.len() != "attempts"@.len());
            assert("no-ip6-dotint"@.len() != "rotate"@.len());
            assert("no-ip6-dotint"@.len() != "no-check-names"@.len());
            assert("no-ip6-dotint"@.len() != "inet6"@.len());
            assert("no-ip6-dotint"@.len() != "ip6-bytestring"@.len());
            assert("no-ip6-dotint"@.len() != "ip6-dotint"@.len());
            let s = "no-ip6-dotint"@;
            assert forall|i: int| 0 <= i < s.len() implies is_plain(#[trigger] s[i]) by {
                lemma_index(i);
            }
            lemma_plain(s);
        },
        OptionName::Edns0 => {
            assert("edns0"@[0] != "debug"@[0]);
            assert("edns0"@[0] != "ndots"@[0]);
            assert("edns0"@.len() != "timeout"@.len());
            assert("edns0"@.len() != "attempts"@.len());
            assert("edns0"@.len() != "rotate"@.len());
            assert("edns0"@.len() != "no-check-names"@.len());
            assert("edns0"@[0] != "inet6"@[0]);
            assert("edns0"@.len() != "ip6-bytestring"@.len());
            assert("edns0"@.len() != "ip6-dotint"@.len());
            assert("edns0"@.len() != "no-ip6-dotint"@.len());
            let s = "edns0"@;
            assert forall|i: int| 0 <= i < s.len() implies is_plain(#[trigger] s[i]) by {
                lemma_index(i);
            }
            lemma_plain(s);
        },
        OptionName::SingleRequest => {
            assert("single-request"@.len() != "debug"@.len());
            assert("single-request"@.len() != "ndots"@.len());
            assert("single-request"@.len() != "timeout"@.len());
            assert("single-request"@.len() != "attempts"@.len());
            assert("single-request"@.len() != "rotate"@.len());
            assert("single-request"@[0] != "no-check-names"@[0]);
            assert("single-request"@.len() != "inet6"@.len());
            assert("single-request"@[0] != "ip6-bytestring"@[0]);
            assert("single-request"@.len() != "ip6-dotint"@.len());
            assert("single-request"@.len() != "no-ip6-dotint"@.len());
            assert("single-request"@.len() != "edns0"@.len());
            let s = "single-request"@;
            assert forall|i: int| 0 <= i < s.len() implies is_plain(#[trigger] s[i]) by {
                lemma_index(i);
            }
            lemma_plain(s);
        },
        OptionName::SingleRequestReopen => {
            assert("single-request-reopen"@.len() != "debug"@.len());
            assert("single-request-reopen"@.len() != "ndots"@.len());
            assert("single-request-reopen"@.len() != "timeout"@.len());
            assert("single-request-reopen"@.len() != "attempts"@.len());
            assert("single-request-reopen"@.len() != "rotate"@.len());
            assert("single-request-reopen"@.len() != "no-check-names"@.len());
            assert("single-request-reopen"@.len() != "inet6"@.len());
            assert("single-request-reopen"@.len() != "ip6-bytestring"@.len());
            assert("single-request-reopen"@.len() != "ip6-dotint"@.len());
            assert("single-request-reopen"@.len() != "no-ip6-dotint"@.len());
            assert("single-request-reopen"@.len() != "edns0"@.len());
            assert("single-request-reopen"@.len() != "single-request"@.len());
            let s = "single-request-reopen"@;
            assert forall|i: int| 0 <= i < s.len() implies is_plain(#[trigger] s[i]) by {
                lemma_index(i);
            }
            lemma_plain(s);
        },
        OptionName::NoTldQuery => {
            assert("no-tld-query"@.len() != "debug"@.len());
            assert("no-tld-query"@.len() != "ndots"@.len());
            assert("no-tld-query"@.len() != "timeout"@.len());
            assert("no-tld-query"@.len() != "attempts"@.len());
            assert("no-tld-query"@.len() != "rotate"@.len());
            assert("no-tld-query"@.len() != "no-check-names"@.len());
            assert("no-tld-query"@.len() != "inet6"@.len());
            assert("no-tld-query"@.len() != "ip6-bytestring"@.len());
            assert("no-tld-query"@.len() != "ip6-dotint"@.len());
            assert("no-tld-query"@.len() != "no-ip6-dotint"@.len());
            assert("no-tld-query"@.len() != "edns0"@.len());
            assert("no-tld-query"@.len() != "single-request"@.len());
            assert("no-tld-query"@.len() != "single-request-reopen"@.len());
            let s = "no-tld-query"@;
            assert forall|i: int| 0 <= i < s.len() implies is_plain(#[trigger] s[i]) by {
                lemma_index(i);
            }
            lemma_plain(s);
        },
        OptionName::UseVc => {
            assert("use-vc"@.len() != "debug"@.len());
            assert("use-vc"@.len() != "ndots"@.len());
            assert("use-vc"@.len() != "timeout"@.len());
            assert("use-vc"@.len() != "attempts"@.len());
            assert("use-vc"@[0] != "rotate"@[0]);
            assert("use-vc"@.len() != "no-check-names"@.len());
            assert("use-vc"@.len() != "inet6"@.len());
            assert("use-vc"@.len() != "ip6-bytestring"@.len());
            assert("use-vc"@.len() != "ip6-dotint"@.len());
            assert("use-vc"@.len() != "no-ip6-dotint"@.len());
            assert("use-vc"@.len() != "edns0"@.len());
            assert("use-vc"@.len() != "single-request"@.len());
            assert("use-vc"@.len() != "single-request-reopen"@.len());
            assert("use-vc"@.len() != "no-tld-query"@.len());
            let s = "use-vc"@;
            assert forall|i: int| 0 <= i < s.len() implies is_plain(#[trigger] s[i]) by {
                lemma_index(i);
            }
            lemma_plain(s);
        },
        OptionName::NoReload => {
            assert("no-reload"@.len() != "debug"@.len());
            assert("no-reload"@.len() != "ndots"@.len());
            assert("no-reload"@.len() != "timeout"@.len());
            assert("no-reload"@.len() != "attempts"@.len());
            assert("no-reload"@.len() != "rotate"@.len());
            assert("no-reload"@.len() != "no-check-names"@.len());
            assert("no-reload"@.len() != "inet6"@.len());
            assert("no-reload"@.len() != "ip6-bytestring"@.len());
            assert("no-reload"@.len() != "ip6-dotint"@.len());
            assert("no-reload"@.len() != "no-ip6-dotint"@.len());
            assert("no-reload"@.len() != "edns0"@.len());
            assert("no-reload"@.len() != "single-request"@.len());
            assert("no-reload"@.len() != "single-request-reopen"@.len());
            assert("no-reload"@.len() != "no-tld-query"@.len());
            assert("no-reload"@.len() != "use-vc"@.len());
            let s = "no-reload"@;
            assert forall|i: int| 0 <= i < s.len() implies is_plain(#[trigger] s[i]) by {
                lemma_index(i);
            }
            lemma_plain(s);
        },
        OptionName::TrustAd => {
            assert("trust-ad"@.len() != "debug"@.len());
            assert("trust-ad"@.len() != "ndots"@.len());
            assert("trust-ad"@.len() != "timeout"@.len());
            assert("trust-ad"@[0] != "attempts"@[0]);
            assert("trust-ad"@.len() != "rotate"@.len());
            assert("trust-ad"@.len() != "no-check-names"@.len());
            assert("trust-ad"@.len() != "inet6"@.len());
            assert("trust-ad"@.len() != "ip6-bytestring"@.len());
            assert("trust-ad"@.len() != "ip6-dotint"@.len());
            assert("trust-ad"@.len() != "no-ip6-dotint"@.len());
            assert("trust-ad"@.len() != "edns0"@.len());
            assert("trust-ad"@.len() != "single-request"@.len());
            assert("trust-ad"@.len() != "single-request-reopen"@.len());
            assert("trust-ad"@.len() != "no-tld-query"@.len());
            assert("trust-ad"@.len() != "use-vc"@.len());
            assert("trust-ad"@.len() != "no-reload"@.len());
            let s = "trust-ad"@;
            assert forall|i: int| 0 <= i < s.len() implies is_plain(#[trigger] s[i]) by {
                lemma_index(i);
            }
            lemma_plain(s);
        },
        OptionName::NoAaaa => {
            assert("no-aaaa"@.len() != "debug"@.len());
            assert("no-aaaa"@.len() != "ndots"@.len());
            assert("no-aaaa"@[0] != "timeout"@[0]);
            assert("no-aaaa"@.len() != "attempts"@.len());
            assert("no-aaaa"@.len() != "rotate"@.len());
            assert("no-aaaa"@.len() != "no-check-names"@.len());
            assert("no-aaaa"@.len() != "inet6"@.len());
            assert("no-aaaa"@.len() != "ip6-bytestring"@.len());
            assert("no-aaaa"@.len() != "ip6-dotint"@.len());
            assert("no-aaaa"@.len() != "no-ip6-dotint"@.len());
            assert("no-aaaa"@.len() != "edns0"@.len());
            assert("no-aaaa"@.len() != "single-request"@.len());
            assert("no-aaaa"@.len() != "single-request-reopen"@.len());
            assert("no-aaaa"@.len() != "no-tld-query"@.len());
            assert("no-aaaa"@.len() != "use-vc"@.len());
            assert("no-aaaa"@.len() != "no-reload"@.len());
            assert("no-aaaa"@.len() != "trust-ad"@.len());
            let s = "no-aaaa"@;
            assert forall|i: int| 0 <= i < s.len() implies is_plain(#[trigger] s[i]) by {
                lemma_index(i);
            }
            lemma_plain(s);
        },
    }
}

} // verus!
