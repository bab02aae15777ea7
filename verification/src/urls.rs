//! Texts taken apart as URLs, and why a text is none.
use crate::outside::{parse_url, url_error_kind, url_of, UrlParts, UrlView};
use vstd::prelude::*;

verus! {

/// Why a text is no absolute URL.
#[derive(Clone, Copy, PartialEq, Eq, Structural, Debug)]
pub enum UrlFault {
    EmptyHost,
    Idna,
    Port,
    Ipv4,
    Ipv6,
    DomainCharacter,
    Relative,
    RelativeToOpaque,
    HostOfOpaque,
    Overflow,
}

/// The words in which a fault is told.
pub open spec fn url_refusal(e: UrlFault) -> Seq<char> {
    match e {
        UrlFault::EmptyHost => "empty host"@,
        UrlFault::Idna => "invalid international domain name"@,
        UrlFault::Port => "invalid port number"@,
        UrlFault::Ipv4 => "invalid IPv4 address"@,
        UrlFault::Ipv6 => "invalid IPv6 address"@,
        UrlFault::DomainCharacter => "invalid domain character"@,
        UrlFault::Relative => "relative URL without a base"@,
        UrlFault::RelativeToOpaque => "relative URL with a cannot-be-a-base base"@,
        UrlFault::HostOfOpaque => "a cannot-be-a-base URL doesn’t have a host to set"@,
        UrlFault::Overflow => "URLs more than 4 GB are not supported"@,
    }
}

impl UrlFault {
    /// The fault in words.
    pub fn message(&self) -> (r: &'static str)
        ensures
            r@ == url_refusal(*self),
    {
        match self {
            UrlFault::EmptyHost => "empty host",
            UrlFault::Idna => "invalid international domain name",
            UrlFault::Port => "invalid port number",
            UrlFault::Ipv4 => "invalid IPv4 address",
            UrlFault::Ipv6 => "invalid IPv6 address",
            UrlFault::DomainCharacter => "invalid domain character",
            UrlFault::Relative => "relative URL without a base",
            UrlFault::RelativeToOpaque => "relative URL with a cannot-be-a-base base",
            UrlFault::HostOfOpaque => "a cannot-be-a-base URL doesn’t have a host to set",
            UrlFault::Overflow => "URLs more than 4 GB are not supported",
        }
    }
}

/// What the parts of a URL are, or why there are none.
pub open spec fn url_view(u: Result<UrlParts, UrlFault>) -> Result<UrlView, UrlFault> {
    match u {
        Ok(u) => Ok(u@),
        Err(e) => Err(e),
    }
}

/// The parts of the URL that a text stands for, or why it stands for none.
pub fn read_url(text: &str) -> (r: Result<UrlParts, UrlFault>)
    ensures
        url_view(r) == url_of(text@),
{
    match parse_url(text) {
        Ok(url) => Ok(url),
        Err(e) => Err(url_error_kind(&e)),
    }
}

} // verus!
