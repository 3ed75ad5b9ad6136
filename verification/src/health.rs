//! Where the reachability check of the local speech server connects: the
//! `host:port` of its base URL. The polling thread and the TCP connect are
//! the caller's.

use vstd::prelude::*;
use crate::text::{
    chars_of, decimal, eq_ignore_ascii_case, eq_ignore_case, parse_u16, parse_u16_spec,
    push_chars, push_decimal, push_str, split_char, split_char_of, split_once, split_once_exec,
    string_of, lemma_split_char_nonempty,
};

verus! {

/// The port a scheme implies: 443 for https (in any case), 80 otherwise.
pub open spec fn default_port(scheme: Seq<char>) -> nat {
    if eq_ignore_case(scheme, "https"@) {
        443
    } else {
        80
    }
}

/// `host:port` of a base URL: the text after `://` up to the first `/`; kept
/// as it is when what follows its last `:` reads as a port number, else with
/// the scheme's default port added. `None` without `://` or without a host.
pub open spec fn authority_spec(url: Seq<char>) -> Option<Seq<char>> {
    match split_once(url, "://"@) {
        None => None,
        Some((scheme, rest)) => {
            let host_port = split_char(rest, '/')[0];
            if host_port.len() == 0 {
                None
            } else if parse_u16_spec(split_char(host_port, ':').last()) is Some {
                Some(host_port)
            } else {
                Some(host_port + ":"@ + decimal(default_port(scheme)))
            }
        },
    }
}

/// Pulls `host:port` out of a base URL, defaulting the port from the scheme.
pub fn authority(url: &str) -> (r: Option<String>)
    ensures
        match r {
            Some(a) => authority_spec(url@) == Some(a@),
            None => authority_spec(url@) is None,
        },
{
    let u = chars_of(url);
    let sep = chars_of("://");
    let (scheme, rest) = match split_once_exec(u.as_slice(), sep.as_slice()) {
        Some(pair) => pair,
        None => return None,
    };
    let pieces = split_char_of(rest.as_slice(), '/');
    proof {
        lemma_split_char_nonempty(rest@, '/');
    }
    let host_port = &pieces[0];
    if host_port.len() == 0 {
        return None;
    }
    let colon_pieces = split_char_of(host_port.as_slice(), ':');
    proof {
        lemma_split_char_nonempty(host_port@, ':');
    }
    let last = &colon_pieces[colon_pieces.len() - 1];
    if parse_u16(last.as_slice()).is_some() {
        return Some(string_of(host_port.as_slice()));
    }
    let https = chars_of("https");
    let port: u64 = if eq_ignore_ascii_case(scheme.as_slice(), https.as_slice()) {
        443
    } else {
        80
    };
    let mut out = string_of(host_port.as_slice());
    push_str(&mut out, ":");
    push_decimal(&mut out, port);
    Some(out)
}

} // verus!
