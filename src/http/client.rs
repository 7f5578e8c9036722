//! The client side of one request: where to connect, whether TLS is in
//! effect, and the bytes of the request itself.
use vstd::prelude::*;
use crate::http::response::HttpError;

verus! {

#[verifier::external_type_specification]
#[verifier::external_body]
pub struct ExDNSName(webpki::DNSName);

/// Whether the text is a syntactically valid DNS name, as webpki judges it.
pub uninterp spec fn is_dns_name(s: Seq<char>) -> bool;

/// Relies on `webpki::DNSNameRef::try_from_ascii_str`: it accepts a name
/// exactly when the text is a syntactically valid DNS name, which depends on
/// the text alone; `DNSNameRef::to_owned` keeps the accepted name.
#[verifier::external_body]
fn dns_name(s: &str) -> (r: Option<webpki::DNSName>)
    ensures
        r is Some <==> is_dns_name(s@),
{
    match webpki::DNSNameRef::try_from_ascii_str(s) {
        Ok(name) => Some(name.to_owned()),
        Err(_) => None,
    }
}

/// How a connection is secured.
#[derive(Debug)]
pub enum Security {
    /// A bare TCP stream, with no confidentiality or integrity.
    Plain,
    /// TLS, checking the server's certificate against this name.
    Tls(webpki::DNSName),
}

pub struct ClientView {
    pub domain: Seq<char>,
    pub port: u16,
    pub insecure: bool,
}

/// A client bound to one domain; every request opens its own connection.
#[derive(Debug)]
pub struct Client {
    domain: String,
    port: u16,
    insecure: bool,
}

/// The request for `path` on `domain`.
pub open spec fn request_text(path: Seq<char>, domain: Seq<char>) -> Seq<char> {
    "GET "@ + path + " HTTP/1.1\r\nHost: "@ + domain + "\r\nAccept: */*\r\n\r\n"@
}

impl View for Client {
    type V = ClientView;

    closed spec fn view(&self) -> ClientView {
        ClientView { domain: self.domain@, port: self.port, insecure: self.insecure }
    }
}

impl Client {
    /// A client that speaks TLS on port 443.
    pub fn new(domain: String) -> (r: Self)
        ensures
            r@ == (ClientView { domain: domain@, port: 443, insecure: false }),
    {
        Client { domain, port: 443, insecure: false }
    }

    /// A client that speaks plain TCP on port 80.
    pub fn new_insecure(domain: String) -> (r: Self)
        ensures
            r@ == (ClientView { domain: domain@, port: 80, insecure: true }),
    {
        Client { domain, port: 80, insecure: true }
    }

    pub fn domain(&self) -> (r: &str)
        ensures
            r@ == self@.domain,
    {
        self.domain.as_str()
    }

    pub fn port(&self) -> (r: u16)
        ensures
            r == self@.port,
    {
        self.port
    }

    pub fn is_insecure(&self) -> (r: bool)
        ensures
            r == self@.insecure,
    {
        self.insecure
    }

    /// How to secure the connection: plain for an insecure client, else TLS
    /// against the domain, which must then be a valid DNS name.
    pub fn security(&self) -> (r: Result<Security, HttpError>)
        ensures
            self@.insecure ==> r matches Ok(Security::Plain),
            !self@.insecure ==> (r matches Ok(Security::Tls(_)) <==> is_dns_name(self@.domain)),
            !self@.insecure && !is_dns_name(self@.domain) ==> r == Err::<Security, _>(
                HttpError::InvalidDnsName,
            ),
    {
        if self.insecure {
            Ok(Security::Plain)
        } else {
            match dns_name(self.domain.as_str()) {
                Some(name) => Ok(Security::Tls(name)),
                None => Err(HttpError::InvalidDnsName),
            }
        }
    }

    /// The text of a `GET` request for `path`, with the `Host` and `Accept`
    /// headers and the blank line that ends it.
    pub fn request(&self, path: &str) -> (r: String)
        ensures
            r@ == request_text(path@, self@.domain),
    {
        let mut r = String::from_str("GET ");
        r.append(path);
        r.append(" HTTP/1.1\r\nHost: ");
        r.append(self.domain.as_str());
        r.append("\r\nAccept: */*\r\n\r\n");
        r
    }
}

} // verus!
