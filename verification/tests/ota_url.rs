//! Addresses of images.

use wifi_display::ota::url::parse_https_url;

#[test]
fn test_simple_url() {
    let url = parse_https_url("https://example.com/firmware/1.0.0/fw.bin").unwrap();
    assert_eq!(url.host, "example.com");
    assert_eq!(url.port, 443);
    assert_eq!(url.path, "/firmware/1.0.0/fw.bin");
}

#[test]
fn test_url_with_port() {
    let url = parse_https_url("https://example.com:8443/fw.bin").unwrap();
    assert_eq!(url.host, "example.com");
    assert_eq!(url.port, 8443);
    assert_eq!(url.path, "/fw.bin");
}

#[test]
fn test_url_no_path() {
    let url = parse_https_url("https://example.com").unwrap();
    assert_eq!(url.host, "example.com");
    assert_eq!(url.port, 443);
    assert_eq!(url.path, "/");
}

#[test]
fn port_without_a_path() {
    let url = parse_https_url("https://example.com:8443").unwrap();
    assert_eq!(url.host, "example.com");
    assert_eq!(url.port, 8443);
    assert_eq!(url.path, "/");
}

#[test]
fn test_url_root_path() {
    let url = parse_https_url("https://example.com/").unwrap();
    assert_eq!(url.host, "example.com");
    assert_eq!(url.path, "/");
}

#[test]
fn test_github_pages_url() {
    let url = parse_https_url(
        "https://babu12345.github.io/portrait_v2/firmware/1.0.0/firmware-signed.bin",
    )
    .unwrap();
    assert_eq!(url.host, "babu12345.github.io");
    assert_eq!(url.port, 443);
    assert_eq!(
        url.path,
        "/portrait_v2/firmware/1.0.0/firmware-signed.bin"
    );
}

#[test]
fn test_s3_presigned_url() {
    let url = parse_https_url(
        "https://my-bucket.s3.amazonaws.com/firmware/v1.2.0/fw.bin",
    )
    .unwrap();
    assert_eq!(url.host, "my-bucket.s3.amazonaws.com");
    assert_eq!(url.path, "/firmware/v1.2.0/fw.bin");
}

#[test]
fn test_http_rejected() {
    assert!(parse_https_url("http://example.com/fw.bin").is_err());
}

#[test]
fn test_empty_url() {
    assert!(parse_https_url("").is_err());
}

#[test]
fn test_no_host() {
    assert!(parse_https_url("https://").is_err());
}

#[test]
fn test_invalid_port() {
    assert!(parse_https_url("https://example.com:abc/fw.bin").is_err());
}

#[test]
fn test_port_too_large() {
    assert!(parse_https_url("https://example.com:99999/fw.bin").is_err());
}
