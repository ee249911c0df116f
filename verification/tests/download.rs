//! Download of an image.

use wifi_display::ota::message::OtaTrigger;
use wifi_display::ota::update::{FlashWriter, OtaError, OtaManager};
use wifi_display::ota_http::{
    find_header_end, next_connect_step, reports_success, request, servername, ConnectStep,
    Download, Next,
};

struct Partition {
    image: Vec<u8>,
    fail_begin: bool,
    fail_write: bool,
    fail_finalize: bool,
    finalized: bool,
}

impl FlashWriter for Partition {
    fn begin(&mut self, _size: u32, _crc32: u32) -> Result<(), OtaError> {
        if self.fail_begin {
            return Err(OtaError::FlashWriteError);
        }
        self.image.clear();
        Ok(())
    }

    fn write_chunk(&mut self, data: &[u8]) -> Result<(), OtaError> {
        if self.fail_write {
            return Err(OtaError::FlashWriteError);
        }
        self.image.extend_from_slice(data);
        Ok(())
    }

    fn finalize(&mut self) -> Result<(), OtaError> {
        if self.fail_finalize {
            return Err(OtaError::FinalizeError);
        }
        self.finalized = true;
        Ok(())
    }

    fn is_pending_verification(&self) -> bool {
        false
    }

    fn mark_valid(&mut self) -> Result<(), OtaError> {
        Ok(())
    }
}

fn manager() -> OtaManager<Partition> {
    OtaManager::new(Partition {
        image: Vec::new(),
        fail_begin: false,
        fail_write: false,
        fail_finalize: false,
        finalized: false,
    })
}

fn announce(_json: &[u8]) -> Option<OtaTrigger<'_>> {
    Some(OtaTrigger {
        url: "https://fw.example.com:8443/v1/fw.bin",
        version: "1.0.0",
        size: 10,
        crc32: 7,
    })
}

#[test]
fn image_is_what_follows_the_headers() {
    let mut mgr = manager();
    let mut download = Download::begin(&mut mgr, b"{}", announce).unwrap();
    assert_eq!(download.url().host, "fw.example.com");
    assert_eq!(download.url().port, 8443);
    assert_eq!(download.url().path, "/v1/fw.bin");
    assert_eq!(download.to_read(), 1024);
    assert_eq!(download.on_read(&mut mgr, Some(b"HTTP/1.1 200 OK\r\nA: b\r\n\r")), Ok(Next::Read(1000)));
    assert_eq!(download.to_read(), 1000);
    assert_eq!(download.on_read(&mut mgr, Some(b"\n01\r\n\r\n")), Ok(Next::Read(4096)));
    assert_eq!(download.to_read(), 4096);
    assert_eq!(download.on_read(&mut mgr, Some(b"67")), Ok(Next::Read(4096)));
    assert_eq!(download.on_read(&mut mgr, Some(b"89")), Ok(Next::Read(4096)));
    assert_eq!(download.on_read(&mut mgr, Some(b"")), Ok(Next::Done));
    assert_eq!(mgr.flash().image, b"01\r\n\r\n6789");
    assert!(mgr.flash().finalized);
    assert_eq!(download.trigger().version, "1.0.0");
}

#[test]
fn pieces_do_not_matter() {
    let response = b"HTTP/1.0 200 OK\r\n\r\n0123456789";
    for cut in 1..response.len() {
        let mut mgr = manager();
        let mut download = Download::begin(&mut mgr, b"{}", announce).unwrap();
        assert!(matches!(download.on_read(&mut mgr, Some(&response[..cut])), Ok(Next::Read(_))));
        assert!(matches!(download.on_read(&mut mgr, Some(&response[cut..])), Ok(Next::Read(_))));
        assert_eq!(download.on_read(&mut mgr, Some(b"")), Ok(Next::Done));
        assert_eq!(mgr.flash().image, b"0123456789");
    }
}

#[test]
fn download_that_cannot_begin() {
    let mut mgr = manager();
    let refused = Download::begin(&mut mgr, b"{}", |_json: &[u8]| None);
    assert_eq!(refused.err().unwrap(), "Failed to parse OTA trigger");

    let mut mgr = manager();
    mgr.flash_mut().fail_begin = true;
    assert_eq!(
        Download::begin(&mut mgr, b"{}", announce).err().unwrap(),
        "Failed to parse OTA trigger"
    );

    let mut mgr = manager();
    let insecure = Download::begin(&mut mgr, b"{}", |_json: &[u8]| {
        Some(OtaTrigger { url: "http://a/b", version: "1", size: 1, crc32: 0 })
    });
    assert_eq!(insecure.err().unwrap(), "Invalid OTA URL");

    let mut mgr = manager();
    Download::begin(&mut mgr, b"{}", announce).unwrap();
    assert_eq!(
        Download::begin(&mut mgr, b"{}", announce).err().unwrap(),
        "Failed to parse OTA trigger"
    );
}

#[test]
fn failures_while_headers_arrive() {
    let mut mgr = manager();
    let mut download = Download::begin(&mut mgr, b"{}", announce).unwrap();
    assert_eq!(download.on_read(&mut mgr, None), Err("OTA header read failed"));

    let mut mgr = manager();
    let mut download = Download::begin(&mut mgr, b"{}", announce).unwrap();
    assert_eq!(
        download.on_read(&mut mgr, Some(b"")),
        Err("OTA connection closed during headers")
    );

    let mut mgr = manager();
    let mut download = Download::begin(&mut mgr, b"{}", announce).unwrap();
    assert_eq!(
        download.on_read(&mut mgr, Some(&[b'x'; 1024])),
        Err("OTA response headers too large")
    );

    let mut mgr = manager();
    let mut download = Download::begin(&mut mgr, b"{}", announce).unwrap();
    assert_eq!(
        download.on_read(&mut mgr, Some(b"HTTP/1.1 404 Not Found\r\n\r\n0123456789")),
        Err("OTA server returned non-200 status")
    );
    assert!(mgr.flash().image.is_empty());

    let mut mgr = manager();
    mgr.flash_mut().fail_write = true;
    let mut download = Download::begin(&mut mgr, b"{}", announce).unwrap();
    assert_eq!(
        download.on_read(&mut mgr, Some(b"HTTP/1.1 200 OK\r\n\r\n0")),
        Err("OTA flash write failed")
    );
}

#[test]
fn headers_may_fill_the_buffer() {
    let mut mgr = manager();
    let mut download = Download::begin(&mut mgr, b"{}", announce).unwrap();
    let mut response = b"HTTP/1.1 200 OK\r\nA: ".to_vec();
    response.resize(1020, b'a');
    response.extend_from_slice(b"\r\n\r\n");
    assert_eq!(download.on_read(&mut mgr, Some(&response)), Ok(Next::Read(4096)));
    assert!(mgr.flash().image.is_empty());
}

#[test]
fn failures_while_the_image_arrives() {
    let head = b"HTTP/1.1 200 OK\r\n\r\n";

    let mut mgr = manager();
    let mut download = Download::begin(&mut mgr, b"{}", announce).unwrap();
    download.on_read(&mut mgr, Some(head)).unwrap();
    assert_eq!(download.on_read(&mut mgr, None), Err("OTA body read failed"));

    let mut mgr = manager();
    let mut download = Download::begin(&mut mgr, b"{}", announce).unwrap();
    download.on_read(&mut mgr, Some(head)).unwrap();
    mgr.flash_mut().fail_write = true;
    assert_eq!(download.on_read(&mut mgr, Some(b"0")), Err("OTA flash write failed"));

    // Nine bytes of ten.
    let mut mgr = manager();
    let mut download = Download::begin(&mut mgr, b"{}", announce).unwrap();
    download.on_read(&mut mgr, Some(head)).unwrap();
    download.on_read(&mut mgr, Some(b"012345678")).unwrap();
    assert_eq!(download.on_read(&mut mgr, Some(b"")), Err("OTA finalize failed"));
    assert!(!mgr.flash().finalized);

    let mut mgr = manager();
    let mut download = Download::begin(&mut mgr, b"{}", announce).unwrap();
    download.on_read(&mut mgr, Some(head)).unwrap();
    download.on_read(&mut mgr, Some(b"0123456789")).unwrap();
    mgr.flash_mut().fail_finalize = true;
    assert_eq!(download.on_read(&mut mgr, Some(b"")), Err("OTA finalize failed"));
}

#[test]
fn end_of_headers() {
    assert_eq!(find_header_end(b""), None);
    assert_eq!(find_header_end(b"\r\n\r"), None);
    assert_eq!(find_header_end(b"\r\n\r\n"), Some(0));
    assert_eq!(find_header_end(b"a\r\n\r\r\n\r\n\r\n\r\n"), Some(4));
}

#[test]
fn success_is_a_status_of_200() {
    assert!(reports_success(b"HTTP/1.1 200 OK\r\n\r\n"));
    assert!(reports_success(b"HTTP/1.0 200\r\n\r\n"));
    assert!(!reports_success(b"HTTP/1.1 206 Partial\r\n\r\n"));
    assert!(!reports_success(b"HTTP/2 200\r\n\r\n"));
    // No valid text.
    assert!(!reports_success(b"HTTP/1.1 200 OK\r\nA: \xFF\r\n\r\n"));
}

#[test]
fn name_of_the_server() {
    assert_eq!(servername("a.b").unwrap(), b"a.b\0");
    let long = "h".repeat(130);
    let name = servername(&long).unwrap();
    assert_eq!(name.len(), 127);
    assert_eq!(name[126], 0);
    assert_eq!(servername("a\0b").unwrap_err(), "Invalid servername");
}

#[test]
fn text_of_the_request() {
    assert_eq!(
        request("/fw.bin", "example.com").unwrap(),
        "GET /fw.bin HTTP/1.1\r\nHost: example.com\r\nConnection: close\r\n\r\n"
    );
    let fixed = request("", "h").unwrap().len();
    assert_eq!(request(&"p".repeat(512 - fixed), "h").unwrap().len(), 512);
    assert_eq!(
        request(&"p".repeat(513 - fixed), "h").unwrap_err(),
        "OTA request too long"
    );
}

#[test]
fn steps_to_the_response() {
    let steps = [
        (ConnectStep::Resolve, "OTA DNS lookup failed"),
        (ConnectStep::FirstAddress, "No IP for OTA host"),
        (ConnectStep::Connect, "OTA TCP connect failed"),
        (ConnectStep::OpenTls, "OTA TLS session creation failed"),
        (ConnectStep::Handshake, "OTA TLS handshake failed"),
        (ConnectStep::Send, "OTA request send failed"),
    ];
    for i in 0..steps.len() {
        let (step, fault) = steps[i];
        assert_eq!(next_connect_step(step, false), Err(fault));
        let next = if i + 1 < steps.len() { steps[i + 1].0 } else { ConnectStep::Receive };
        assert_eq!(next_connect_step(step, true), Ok(next));
    }
}
