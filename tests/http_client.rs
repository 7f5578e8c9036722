use iexc::http::{Client, HttpError, Security};
use iexc::{Endpoint};

#[test]
fn request_matches_template() {
    let client = Client::new("example.com".to_string());
    assert_eq!(client.request("/x"), "GET /x HTTP/1.1\r\nHost: example.com\r\nAccept: */*\r\n\r\n");
}

#[test]
fn secure_and_insecure_clients() {
    let secure = Client::new("example.com".to_string());
    assert_eq!(secure.domain(), "example.com");
    assert_eq!(secure.port(), 443);
    assert!(!secure.is_insecure());
    let plain = Client::new_insecure("example.com".to_string());
    assert_eq!(plain.port(), 80);
    assert!(plain.is_insecure());
}

#[test]
fn security_of_clients() {
    assert!(matches!(Client::new("example.com".to_string()).security(), Ok(Security::Tls(_))));
    assert!(matches!(Client::new_insecure("not a name!".to_string()).security(), Ok(Security::Plain)));
    assert!(matches!(
        Client::new("not a name!".to_string()).security(),
        Err(HttpError::InvalidDnsName)
    ));
}

#[test]
fn iex_client_domains_and_price_path() {
    let prod = iexc::Client::new(Endpoint::Production, "tok123".to_string());
    assert_eq!(prod.http_client().domain(), "cloud.iexapis.com");
    assert_eq!(prod.http_client().port(), 443);
    assert_eq!(prod.latest_price_path("aapl"), "/stable/stock/aapl/price?token=tok123");
    let sandbox = iexc::Client::new(Endpoint::Sandbox, "t".to_string());
    assert_eq!(sandbox.http_client().domain(), "sandbox.iexapis.com");
}
