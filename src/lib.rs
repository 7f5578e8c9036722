//! A small HTTP/1.1 client for the IEX Cloud stock-quote service.
pub mod http;

use vstd::prelude::*;

verus! {

/// Which IEX Cloud service to talk to.
#[derive(Debug, Clone, Copy, PartialEq, Eq, Structural)]
pub enum Endpoint {
    Production,
    Sandbox,
}

/// The domain that serves `endpoint`.
pub open spec fn endpoint_domain(endpoint: Endpoint) -> Seq<char> {
    match endpoint {
        Endpoint::Production => "cloud.iexapis.com"@,
        Endpoint::Sandbox => "sandbox.iexapis.com"@,
    }
}

/// The path that asks for the latest price of `symbol`.
pub open spec fn price_path_text(symbol: Seq<char>, token: Seq<char>) -> Seq<char> {
    "/stable/stock/"@ + symbol + "/price?token="@ + token
}

pub struct ClientView {
    pub http: http::client::ClientView,
    pub api_token: Seq<char>,
}

/// A client of the IEX Cloud API, authenticated by an API token.
pub struct Client {
    http_client: http::Client,
    api_token: String,
}

impl View for Client {
    type V = ClientView;

    closed spec fn view(&self) -> ClientView {
        ClientView { http: self.http_client@, api_token: self.api_token@ }
    }
}

impl Client {
    /// A client of `endpoint` over TLS.
    pub fn new(endpoint: Endpoint, api_token: String) -> (r: Self)
        ensures
            r@.http == (http::client::ClientView {
                domain: endpoint_domain(endpoint),
                port: 443,
                insecure: false,
            }),
            r@.api_token == api_token@,
    {
        let domain = match endpoint {
            Endpoint::Production => "cloud.iexapis.com",
            Endpoint::Sandbox => "sandbox.iexapis.com",
        };
        Self { http_client: http::Client::new(domain.to_string()), api_token }
    }

    /// The HTTP client that carries the requests.
    pub fn http_client(&self) -> (r: &http::Client)
        ensures
            r@ == self@.http,
    {
        &self.http_client
    }

    /// The path of the request for the latest price of `symbol`.
    pub fn latest_price_path(&self, symbol: &str) -> (r: String)
        ensures
            r@ == price_path_text(symbol@, self@.api_token),
    {
        let mut r = String::from_str("/stable/stock/");
        r.append(symbol);
        r.append("/price?token=");
        r.append(self.api_token.as_str());
        r
    }
}

} // verus!
