//! Addresses of upstream nodes.

use crate::number::{decimal, decimal_text};
use vstd::prelude::*;

verus! {

/// An address that was read from a text: the text in its normal form, and the parts that matter.
pub struct Endpoint {
    text: String,
    scheme: String,
    host: Option<String>,
    port: Option<u16>,
}

/// What an address says.
#[verifier::ext_equal]
pub struct EndpointView {
    pub text: Seq<char>,
    pub scheme: Seq<char>,
    pub host: Option<Seq<char>>,
    pub port: Option<u16>,
}

/// The address `https://eth.merkle.io/`.
pub open spec fn merkle() -> EndpointView {
    EndpointView {
        text: "https://eth.merkle.io/"@,
        scheme: "https"@,
        host: Some("eth.merkle.io"@),
        port: None,
    }
}

/// The address that `url::Url` reads from a text.
pub uninterp spec fn url_of(text: Seq<char>) -> Option<EndpointView>;

impl Endpoint {
    pub closed spec fn view(&self) -> EndpointView {
        EndpointView {
            text: self.text@,
            scheme: self.scheme@,
            host: match self.host {
                Some(host) => Some(host@),
                None => None,
            },
            port: self.port,
        }
    }

    /// `url::Url::parse` with `as_str`, `scheme`, `host_str` and `port` of its result: what is
    /// read is a function of the text.
    #[verifier::external_body]
    fn read(text: &str) -> (endpoint: Option<Endpoint>)
        ensures
            match endpoint {
                Some(endpoint) => url_of(text@) == Some(endpoint@),
                None => url_of(text@) is None,
            },
    {
        match url::Url::parse(text) {
            Ok(url) => Some(Endpoint {
                text: url.as_str().to_owned(),
                scheme: url.scheme().to_owned(),
                host: url.host_str().map(|host| host.to_owned()),
                port: url.port(),
            }),
            Err(_) => None,
        }
    }

    /// Reads an address.
    pub fn parse(text: &str) -> (endpoint: Option<Endpoint>)
        ensures
            match endpoint {
                Some(endpoint) => url_of(text@) == Some(endpoint@),
                None => url_of(text@) is None,
            },
    {
        Endpoint::read(text)
    }

    /// The address `https://eth.merkle.io/`.
    pub(crate) fn merkle() -> (endpoint: Endpoint)
        ensures
            endpoint@ == merkle(),
    {
        Endpoint {
            text: "https://eth.merkle.io/".to_owned(),
            scheme: "https".to_owned(),
            host: Some("eth.merkle.io".to_owned()),
            port: None,
        }
    }

    /// The address as text.
    pub fn as_str(&self) -> (text: &str)
        ensures
            text@ == self@.text,
    {
        self.text.as_str()
    }

    pub fn scheme(&self) -> (scheme: &str)
        ensures
            scheme@ == self@.scheme,
    {
        self.scheme.as_str()
    }

    pub fn has_host(&self) -> (has: bool)
        ensures
            has == (self@.host is Some),
    {
        self.host.is_some()
    }
}

impl Clone for Endpoint {
    fn clone(&self) -> (copy: Self)
        ensures
            copy@ == self@,
    {
        Endpoint {
            text: self.text.clone(),
            scheme: self.scheme.clone(),
            host: match &self.host {
                Some(host) => Some(host.clone()),
                None => None,
            },
            port: self.port,
        }
    }
}

/// An address without what comes behind host and port.
pub open spec fn origin(endpoint: EndpointView) -> Seq<char> {
    endpoint.scheme + "://"@ + match endpoint.host {
        Some(host) => host,
        None => Seq::empty(),
    } + match endpoint.port {
        Some(port) => ":"@ + decimal_text(port as nat),
        None => Seq::empty(),
    }
}

/// The name of an address: its origin in normal form, or the whole address where the origin is no
/// address.
pub open spec fn public_name(endpoint: EndpointView) -> Seq<char> {
    match url_of(origin(endpoint)) {
        Some(sanitized) => sanitized.text,
        None => endpoint.text,
    }
}

/// The origin of an address in normal form, where it is an address itself. It leaves out the path
/// and the query, which may hold secrets.
pub fn sanitize_url(endpoint: &Endpoint) -> (name: Option<String>)
    ensures
        match name {
            Some(name) => url_of(origin(endpoint@)) is Some && name@ == url_of(
                origin(endpoint@),
            )->0.text,
            None => url_of(origin(endpoint@)) is None,
        },
{
    let mut text: String = endpoint.scheme.clone();
    text.append("://");
    if let Some(host) = &endpoint.host {
        text.append(host.as_str());
    }
    let ghost upto = text@;
    if let Some(port) = endpoint.port {
        text.append(":");
        text.append(decimal(port as u64).as_str());
        proof {
            assert(text@ =~= upto + (":"@ + decimal_text(port as nat)));
        }
    }
    proof {
        assert(text@ =~= origin(endpoint@));
    }
    match Endpoint::parse(text.as_str()) {
        Some(sanitized) => Some(sanitized.text),
        None => None,
    }
}

/// Addresses that differ in path, query and credentials alone have one name, where their origin
/// is an address.
pub proof fn law_name_hides_path_and_query(a: EndpointView, b: EndpointView)
    requires
        a.scheme == b.scheme,
        a.host == b.host,
        a.port == b.port,
        url_of(origin(a)) is Some,
    ensures
        public_name(a) == public_name(b),
{
}

/// The name of an address is its scheme, host and port in normal form, or the address itself where
/// these make up none. Nothing of a path or a query is in what the name is made of.
pub proof fn law_name_is_made_of_the_origin(endpoint: &Endpoint, name: Option<String>)
    requires
        call_ensures(sanitize_url, (endpoint,), name),
    ensures
        ({
            let host = match endpoint@.host {
                Some(host) => host,
                None => Seq::empty(),
            };
            let front = endpoint@.scheme + "://"@ + host;
            let whole = match endpoint@.port {
                Some(port) => front + ":"@ + decimal_text(port as nat),
                None => front,
            };
            &&& name is Some <==> url_of(whole) is Some
            &&& name is Some ==> name->0@ == url_of(whole)->0.text
            &&& public_name(endpoint@) == match url_of(whole) {
                Some(url) => url.text,
                None => endpoint@.text,
            }
        }),
{
    let host = match endpoint@.host {
        Some(host) => host,
        None => Seq::empty(),
    };
    let front = endpoint@.scheme + "://"@ + host;
    if let Some(port) = endpoint@.port {
        assert(front + (":"@ + decimal_text(port as nat)) =~= front + ":"@ + decimal_text(
            port as nat,
        ));
    } else {
        assert(front + Seq::<char>::empty() =~= front);
    }
}

/// An address that was read shows its parts, and a copy of it is the same address.
pub proof fn law_address_shows_its_parts(
    text: &str,
    parsed: Option<Endpoint>,
    endpoint: &Endpoint,
    shown: &str,
    scheme: &str,
    has_host: bool,
    copy: Endpoint,
)
    requires
        call_ensures(Endpoint::parse, (text,), parsed),
        call_ensures(Endpoint::as_str, (endpoint,), shown),
        call_ensures(Endpoint::scheme, (endpoint,), scheme),
        call_ensures(Endpoint::has_host, (endpoint,), has_host),
        call_ensures(Endpoint::clone, (endpoint,), copy),
    ensures
        parsed is Some <==> url_of(text@) is Some,
        parsed is Some ==> parsed->0@ == url_of(text@)->0,
        shown@ == endpoint@.text,
        scheme@ == endpoint@.scheme,
        has_host <==> endpoint@.host is Some,
        copy@ == endpoint@,
{
}

} // verus!
