//! The addresses of RTSP resources.

use vstd::prelude::*;

use crate::text::same_text;

verus! {

/// The host of a URL. Addresses are numbers in network byte order.
#[derive(Debug, PartialEq, Eq)]
pub enum Host {
    Domain(String),
    Ipv4(u32),
    Ipv6(u128),
}

/// A host as plain values.
pub enum HostView {
    Domain(Seq<char>),
    Ipv4(u32),
    Ipv6(u128),
}

impl View for Host {
    type V = HostView;

    open spec fn view(&self) -> HostView {
        match self {
            Host::Domain(name) => HostView::Domain(name@),
            Host::Ipv4(address) => HostView::Ipv4(*address),
            Host::Ipv6(address) => HostView::Ipv6(*address),
        }
    }
}

impl Host {
    /// Whether two hosts are the same.
    pub fn same(&self, other: &Host) -> (r: bool)
        ensures
            r == (self@ == other@),
            match (self, other) {
                (Host::Domain(a), Host::Domain(b)) => r == (a@ == b@),
                (Host::Ipv4(a), Host::Ipv4(b)) => r == (a == b),
                (Host::Ipv6(a), Host::Ipv6(b)) => r == (a == b),
                _ => !r,
            },
    {
        match (self, other) {
            (Host::Domain(a), Host::Domain(b)) => same_text(a.as_str(), b.as_str()),
            (Host::Ipv4(a), Host::Ipv4(b)) => *a == *b,
            (Host::Ipv6(a), Host::Ipv6(b)) => *a == *b,
            _ => false,
        }
    }
}

impl Clone for Host {
    fn clone(&self) -> (r: Host)
        ensures
            r == *self,
    {
        match self {
            Host::Domain(name) => Host::Domain(name.clone()),
            Host::Ipv4(address) => Host::Ipv4(*address),
            Host::Ipv6(address) => Host::Ipv6(*address),
        }
    }
}

/// A URL: its text in normal form, and the parts of it that the client reads.
#[derive(Debug, PartialEq, Eq)]
pub struct Url {
    pub text: String,
    pub host: Option<Host>,
    /// The host as it stands in the text.
    pub host_str: Option<String>,
    /// The port, where the text gives one that is not the default of its scheme.
    pub port: Option<u16>,
}

/// A URL as plain values.
pub struct UrlView {
    pub text: Seq<char>,
    pub host: Option<HostView>,
    pub host_str: Option<Seq<char>>,
    pub port: Option<u16>,
}

impl View for Url {
    type V = UrlView;

    open spec fn view(&self) -> UrlView {
        UrlView {
            text: self.text@,
            host: match self.host {
                Some(host) => Some(host@),
                None => None,
            },
            host_str: match self.host_str {
                Some(host) => Some(host@),
                None => None,
            },
            port: self.port,
        }
    }
}

impl Clone for Url {
    fn clone(&self) -> (r: Url)
        ensures
            r == *self,
    {
        Url {
            text: self.text.clone(),
            host: match &self.host {
                Some(host) => Some(host.clone()),
                None => None,
            },
            host_str: match &self.host_str {
                Some(host) => Some(host.clone()),
                None => None,
            },
            port: self.port,
        }
    }
}

/// A text that is no URL.
#[derive(Debug, PartialEq, Eq)]
pub struct InvalidUrl {
    /// What is wrong with it.
    pub message: String,
}

/// The URL that a text writes, as the URL Standard has it, or what is wrong with the text where it
/// writes none.
pub uninterp spec fn url_of(input: Seq<char>) -> Result<UrlView, Seq<char>>;

/// `url::Url::parse`: of the `url::Url` that it returns the results of `as_str`, `host`, `host_str`
/// and `port`; of its error the message, of which each error has its own. The contract says that
/// they depend on the text alone.
#[verifier::external_body]
fn parse_url(input: &str) -> (r: Result<Url, InvalidUrl>)
    ensures
        match r {
            Ok(url) => url_of(input@) == Ok::<_, Seq<char>>(url@),
            Err(error) => url_of(input@) == Err::<UrlView, _>(error.message@),
        },
{
    let url = url::Url::parse(input).map_err(|e| InvalidUrl { message: e.to_string() })?;
    let host = match url.host() {
        Some(url::Host::Domain(name)) => Some(Host::Domain(name.to_owned())),
        Some(url::Host::Ipv4(address)) => Some(Host::Ipv4(u32::from(address))),
        Some(url::Host::Ipv6(address)) => Some(Host::Ipv6(u128::from(address))),
        None => None,
    };
    let host_str = url.host_str().map(str::to_owned);
    Ok(Url { text: url.as_str().to_owned(), host, host_str, port: url.port() })
}

impl Url {
    /// Parses an absolute URL.
    pub fn parse(input: &str) -> (r: Result<Url, InvalidUrl>)
        ensures
            match r {
                Ok(url) => url_of(input@) == Ok::<_, Seq<char>>(url@),
                Err(error) => url_of(input@) == Err::<UrlView, _>(error.message@),
            },
    {
        parse_url(input)
    }

    /// The text of the URL.
    pub fn as_str(&self) -> (r: &str)
        ensures
            r@ == self@.text,
            r@ == self.text@,
    {
        self.text.as_str()
    }
}

} // verus!
