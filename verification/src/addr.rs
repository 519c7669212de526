//! The address parser: maps a connection string of the form
//! `("ircs://" | "irc://" | "") host [":" port]` to a scheme flag (TLS or
//! plain), a host, and a port, with the documented default ports.
use vstd::prelude::*;

use crate::SocketError;
use crate::text::{parse_uint_capped, rfind_char, spec_parse_uint, spec_rfind, starts_with};

verus! {

/// The host and port that `host[:port]` denotes under default port `dp`:
/// split at the last colon when the trailing segment parses as a 16-bit
/// port; otherwise the whole string is the host and the default applies.
pub open spec fn spec_split_host_port(s: Seq<char>, dp: u16) -> (Seq<char>, u16) {
    match spec_rfind(s, ':') {
        None => (s, dp),
        Some(i) => match spec_parse_uint(s.subrange(i + 1, s.len() as int), 65535) {
            Some(p) => (s.subrange(0, i), p as u16),
            None => (s, dp),
        },
    }
}

/// The scheme, host and port that a connection address denotes, before the
/// empty-host check: `ircs://` asks for TLS and defaults to port 6697,
/// `irc://` and a bare address are plain and default to port 6667.
pub open spec fn spec_parse_address(s: Seq<char>) -> (bool, Seq<char>, u16) {
    if "ircs://"@.is_prefix_of(s) {
        let hp = spec_split_host_port(s.skip("ircs://"@.len() as int), 6697);
        (true, hp.0, hp.1)
    } else if "irc://"@.is_prefix_of(s) {
        let hp = spec_split_host_port(s.skip("irc://"@.len() as int), 6667);
        (false, hp.0, hp.1)
    } else {
        let hp = spec_split_host_port(s, 6667);
        (false, hp.0, hp.1)
    }
}

/// Split `host_port` at its last colon when the trailing segment is a
/// 16-bit port; otherwise keep the whole string as the host and use
/// `default_port`. Fails only when the resulting host is empty.
pub fn parse_host_port(host_port: &str, default_port: u16) -> (r: Result<(String, u16), SocketError>)
    ensures
        ({
            let hp = spec_split_host_port(host_port@, default_port);
            if hp.0.len() == 0 {
                r == Err::<(String, u16), SocketError>(SocketError::InvalidAddress)
            } else {
                r is Ok && r->Ok_0.0@ == hp.0 && r->Ok_0.1 == hp.1
            }
        }),
{
    let n = host_port.unicode_len();
    proof {
        crate::text::lemma_spec_rfind_properties(host_port@, ':');
    }
    match rfind_char(host_port, ':') {
        Some(i) => {
            let port_str = host_port.substring_char(i + 1, n);
            proof {
                assert(port_str@ =~= host_port@.subrange(i + 1, n as int));
            }
            match parse_uint_capped(port_str, 65535) {
                Some(p) => {
                    if i == 0 {
                        Err(SocketError::InvalidAddress)
                    } else {
                        let host = host_port.substring_char(0, i).to_owned();
                        Ok((host, p as u16))
                    }
                },
                None => {
                    if n == 0 {
                        Err(SocketError::InvalidAddress)
                    } else {
                        Ok((host_port.to_owned(), default_port))
                    }
                },
            }
        },
        None => {
            if n == 0 {
                Err(SocketError::InvalidAddress)
            } else {
                Ok((host_port.to_owned(), default_port))
            }
        },
    }
}

/// Parse a connection address: recognise the `ircs://` and `irc://`
/// prefixes, fall back to plain with port 6667, and split the remainder
/// into host and port. Fails only when the resulting host is empty.
pub fn parse_address(address: &str) -> (r: Result<(bool, String, u16), SocketError>)
    ensures
        ({
            let thp = spec_parse_address(address@);
            if thp.1.len() == 0 {
                r == Err::<(bool, String, u16), SocketError>(SocketError::InvalidAddress)
            } else {
                r is Ok && r->Ok_0.0 == thp.0 && r->Ok_0.1@ == thp.1 && r->Ok_0.2 == thp.2
            }
        }),
{
    let n = address.unicode_len();
    if starts_with(address, "ircs://") {
        proof {
            reveal_strlit("ircs://");
        }
        let rest = address.substring_char(7, n);
        proof {
            assert(rest@ =~= address@.skip("ircs://"@.len() as int));
        }
        match parse_host_port(rest, 6697) {
            Ok(hp) => Ok((true, hp.0, hp.1)),
            Err(e) => Err(e),
        }
    } else if starts_with(address, "irc://") {
        proof {
            reveal_strlit("irc://");
        }
        let rest = address.substring_char(6, n);
        proof {
            assert(rest@ =~= address@.skip("irc://"@.len() as int));
        }
        match parse_host_port(rest, 6667) {
            Ok(hp) => Ok((false, hp.0, hp.1)),
            Err(e) => Err(e),
        }
    } else {
        match parse_host_port(address, 6667) {
            Ok(hp) => Ok((false, hp.0, hp.1)),
            Err(e) => Err(e),
        }
    }
}

} // verus!
