//! Download of a firmware image over HTTPS.
//!
//! The bytes that follow the headers of the response are the image. They go to
//! flash in the pieces in which they arrive.

use crate::ota::message::OtaTrigger;
use crate::ota::state::OtaState;
use crate::ota::update::{FlashWriter, OtaError, OtaManager, DEFAULT_CHUNK_SIZE};
use crate::ota::url::{parse_https_url, ParsedUrl};
use crate::text::{find_byte, starts_with, utf8_text};
use crate::short_text::{append_to_request, empty_request, size_of, MAX_REQUEST_SIZE};
use vstd::prelude::*;
use vstd::string::*;

verus! {

/// Seconds after which a connection without traffic is given up.
pub const OTA_SOCKET_TIMEOUT_SECS: u64 = 120;

/// Bytes that the socket holds in each direction.
pub const OTA_TCP_BUFFER_SIZE: usize = 4096;

/// Bytes of response headers at most.
pub const MAX_HEADER_SIZE: usize = 1024;

/// Bytes of the server's name at most; the rest is cut off.
pub const MAX_SERVERNAME_SIZE: usize = 126;

// =============================================================================
// Connecting
// =============================================================================

/// A step on the way to the response.
#[derive(Debug, Clone, Copy, PartialEq, Eq, Structural)]
pub enum ConnectStep {
    /// Look up the host.
    Resolve,
    /// Take its first address.
    FirstAddress,
    /// Connect to it.
    Connect,
    /// Create the encrypted connection.
    OpenTls,
    /// Perform its handshake.
    Handshake,
    /// Send the request.
    Send,
    /// Read the response.
    Receive,
}

/// What a failed step ends the download with.
pub open spec fn connect_fault(step: ConnectStep) -> Seq<char> {
    match step {
        ConnectStep::Resolve => "OTA DNS lookup failed"@,
        ConnectStep::FirstAddress => "No IP for OTA host"@,
        ConnectStep::Connect => "OTA TCP connect failed"@,
        ConnectStep::OpenTls => "OTA TLS session creation failed"@,
        ConnectStep::Handshake => "OTA TLS handshake failed"@,
        ConnectStep::Send => "OTA request send failed"@,
        ConnectStep::Receive => "OTA header read failed"@,
    }
}

/// The step after one that is done, or the error that a failed one ends the
/// download with.
pub fn next_connect_step(step: ConnectStep, ok: bool) -> (r: Result<ConnectStep, &'static str>)
    ensures
        ok ==> r == Ok::<ConnectStep, &'static str>(
            match step {
                ConnectStep::Resolve => ConnectStep::FirstAddress,
                ConnectStep::FirstAddress => ConnectStep::Connect,
                ConnectStep::Connect => ConnectStep::OpenTls,
                ConnectStep::OpenTls => ConnectStep::Handshake,
                ConnectStep::Handshake => ConnectStep::Send,
                _ => ConnectStep::Receive,
            },
        ),
        !ok ==> (r matches Err(e) && e@ == connect_fault(step)),
{
    match step {
        ConnectStep::Resolve => if ok {
            Ok(ConnectStep::FirstAddress)
        } else {
            Err("OTA DNS lookup failed")
        },
        ConnectStep::FirstAddress => if ok {
            Ok(ConnectStep::Connect)
        } else {
            Err("No IP for OTA host")
        },
        ConnectStep::Connect => if ok {
            Ok(ConnectStep::OpenTls)
        } else {
            Err("OTA TCP connect failed")
        },
        ConnectStep::OpenTls => if ok {
            Ok(ConnectStep::Handshake)
        } else {
            Err("OTA TLS session creation failed")
        },
        ConnectStep::Handshake => if ok {
            Ok(ConnectStep::Send)
        } else {
            Err("OTA TLS handshake failed")
        },
        ConnectStep::Send => if ok {
            Ok(ConnectStep::Receive)
        } else {
            Err("OTA request send failed")
        },
        ConnectStep::Receive => if ok {
            Ok(ConnectStep::Receive)
        } else {
            Err("OTA header read failed")
        },
    }
}

/// The bytes of a host's name that the encrypted connection is opened with.
pub open spec fn servername_bytes(host: Seq<char>) -> Seq<u8> {
    let bytes = vstd::utf8::encode_utf8(host);
    if bytes.len() > MAX_SERVERNAME_SIZE {
        bytes.take(MAX_SERVERNAME_SIZE as int)
    } else {
        bytes
    }
}

/// The name of the server for the encrypted connection, with the zero byte
/// that ends it. A name cannot hold another one.
pub fn servername(host: &str) -> (r: Result<Vec<u8>, &'static str>)
    ensures
        if servername_bytes(host@).contains(0u8) {
            r matches Err(e) && e@ == "Invalid servername"@
        } else {
            r matches Ok(name) && name@ == servername_bytes(host@).push(0u8)
        },
{
    let bytes: &[u8] = host.as_bytes();
    let len: usize = if bytes.len() > MAX_SERVERNAME_SIZE {
        MAX_SERVERNAME_SIZE
    } else {
        bytes.len()
    };
    let cut: &[u8] = &bytes[0..len];
    proof {
        assert(cut@ =~= servername_bytes(host@));
        cut@.index_of_first_ensures(0u8);
    }
    match find_byte(cut, 0) {
        Some(_) => Err("Invalid servername"),
        None => {
            let mut name: Vec<u8> = Vec::new();
            name.extend_from_slice(cut);
            name.push(0);
            Ok(name)
        },
    }
}

/// The request for a path on a host.
pub open spec fn request_text(path: Seq<char>, host: Seq<char>) -> Seq<char> {
    "GET "@ + path + " HTTP/1.1\r\nHost: "@ + host + "\r\nConnection: close\r\n\r\n"@
}

/// The request for a path on a host, unless it is too long.
pub fn request(path: &str, host: &str) -> (r: Result<heapless::String<512>, &'static str>)
    ensures
        if size_of(request_text(path@, host@)) <= MAX_REQUEST_SIZE {
            r matches Ok(text) && crate::short_text::request_of(text) == request_text(path@, host@)
        } else {
            r matches Err(e) && e@ == "OTA request too long"@
        },
{
    let mut text: heapless::String<512> = empty_request();
    proof {
        let first = "GET "@;
        let second = " HTTP/1.1\r\nHost: "@;
        let third = "\r\nConnection: close\r\n\r\n"@;
        assert(Seq::<char>::empty() + first =~= first);
        crate::text::lemma_encode_concat(first, path@);
        crate::text::lemma_encode_concat(first + path@, second);
        crate::text::lemma_encode_concat(first + path@ + second, host@);
        crate::text::lemma_encode_concat(first + path@ + second + host@, third);
    }
    if append_to_request(&mut text, "GET ") && append_to_request(&mut text, path)
        && append_to_request(&mut text, " HTTP/1.1\r\nHost: ") && append_to_request(
        &mut text,
        host,
    ) && append_to_request(&mut text, "\r\nConnection: close\r\n\r\n") {
        Ok(text)
    } else {
        Err("OTA request too long")
    }
}

// =============================================================================
// The response
// =============================================================================

/// The empty line that ends headers begins here.
pub open spec fn ends_at(data: Seq<u8>, i: int) -> bool {
    &&& 0 <= i <= data.len() - 4
    &&& data[i] == 13
    &&& data[i + 1] == 10
    &&& data[i + 2] == 13
    &&& data[i + 3] == 10
}

/// The first empty line begins here.
pub open spec fn first_end(data: Seq<u8>, i: int) -> bool {
    &&& ends_at(data, i)
    &&& forall|j: int| 0 <= j < i ==> !#[trigger] ends_at(data, j)
}

/// There is no empty line.
pub open spec fn no_end(data: Seq<u8>) -> bool {
    forall|j: int| !#[trigger] ends_at(data, j)
}

/// How many bytes the headers of a response take, with the empty line that
/// ends them.
pub open spec fn header_size(response: Seq<u8>) -> int {
    (choose|i: int| first_end(response, i)) + 4
}

/// The headers of a response.
pub open spec fn headers(response: Seq<u8>) -> Seq<u8> {
    response.take(header_size(response))
}

/// What follows the headers of a response.
pub open spec fn body(response: Seq<u8>) -> Seq<u8> {
    response.skip(header_size(response))
}

/// The headers of a response that has what was asked for.
pub open spec fn is_success(headers: Seq<u8>) -> bool {
    let text = vstd::utf8::decode_utf8(headers);
    &&& vstd::utf8::valid_utf8(headers)
    &&& "HTTP/1.1 200"@.is_prefix_of(text) || "HTTP/1.0 200"@.is_prefix_of(text)
}

/// Where the empty line that ends headers begins.
pub fn find_header_end(data: &[u8]) -> (r: Option<usize>)
    ensures
        match r {
            Some(i) => first_end(data@, i as int),
            None => no_end(data@),
        },
{
    if data.len() < 4 {
        return None;
    }
    let mut i: usize = 0;
    while i <= data.len() - 4
        invariant
            4 <= data@.len(),
            i <= data@.len() - 3,
            forall|j: int| 0 <= j < i ==> !#[trigger] ends_at(data@, j),
        decreases data@.len() - i,
    {
        if data[i] == 13 && data[i + 1] == 10 && data[i + 2] == 13 && data[i + 3] == 10 {
            return Some(i);
        }
        i += 1;
    }
    None
}

/// The empty line that comes first stays the first one, whatever follows.
pub proof fn law_headers_stay(response: Seq<u8>, more: Seq<u8>, i: int)
    requires
        first_end(response, i),
    ensures
        first_end(response + more, i),
        header_size(response) == i + 4,
        header_size(response + more) == i + 4,
        headers(response + more) == headers(response),
        body(response + more) == body(response) + more,
{
    let whole = response + more;
    assert forall|j: int| 0 <= j < i implies !#[trigger] ends_at(whole, j) by {
        assert(!ends_at(response, j));
    }
    assert(first_end(whole, i));
    let a = choose|k: int| first_end(response, k);
    let b = choose|k: int| first_end(whole, k);
    assert(first_end(response, a) && first_end(whole, b));
    assert(a == i) by {
        if a < i {
            assert(!ends_at(response, a));
        }
        if i < a {
            assert(!ends_at(response, i));
        }
    }
    assert(b == i) by {
        if b < i {
            assert(!ends_at(whole, b));
        }
        if i < b {
            assert(!ends_at(whole, i));
        }
    }
    assert(headers(whole) =~= headers(response));
    assert(body(whole) =~= body(response) + more);
}

/// What a download does next.
#[derive(Debug, Clone, Copy, PartialEq, Eq, Structural)]
pub enum Next {
    /// Read this many bytes at most.
    Read(usize),
    /// The image is on flash, checked, and boots next.
    Done,
}

/// A download, from the announcement of the image to its last byte.
pub struct Download<'a> {
    trigger: OtaTrigger<'a>,
    url: ParsedUrl<'a>,
    header: Vec<u8>,
    in_body: bool,
    received: Ghost<Seq<u8>>,
}

impl<'a> Download<'a> {
    /// The announcement of the image.
    pub closed spec fn announcement(&self) -> OtaTrigger<'a> {
        self.trigger
    }

    /// Where the image is.
    pub closed spec fn address(&self) -> ParsedUrl<'a> {
        self.url
    }

    /// All that has been received.
    pub closed spec fn response(&self) -> Seq<u8> {
        self.received@
    }

    /// The headers have been received and report success.
    pub closed spec fn streams(&self) -> bool {
        self.in_body
    }

    /// The bytes to read at most.
    pub open spec fn wanted(&self) -> int {
        if self.streams() {
            DEFAULT_CHUNK_SIZE as int
        } else {
            MAX_HEADER_SIZE - self.response().len()
        }
    }

    /// What the download keeps true of itself.
    pub closed spec fn valid(&self) -> bool {
        !self.in_body ==> self.header@ == self.received@
    }

    /// The download is on its way: until the headers are complete, nothing is
    /// on flash; from then on, what followed them is.
    pub open spec fn in_step<F: FlashWriter>(&self, mgr: OtaManager<F>) -> bool {
        &&& self.valid()
        &&& mgr.in_step()
        &&& mgr.status().state == OtaState::Downloading
        &&& mgr.expected() == self.announcement().size
        &&& if self.streams() {
            &&& exists|i: int| first_end(self.response(), i)
            &&& is_success(headers(self.response()))
            &&& mgr.writer()@.image == body(self.response())
        } else {
            &&& no_end(self.response())
            &&& self.response().len() < MAX_HEADER_SIZE
            &&& mgr.writer()@.image == Seq::<u8>::empty()
        }
    }

    /// This is what becomes of a download of the image that a trigger
    /// announces: the address is taken apart, and nothing has been received.
    pub open spec fn starts_as(trigger: OtaTrigger<'a>, r: Result<Self, &'static str>) -> bool {
        match crate::ota::url::url_parts(trigger.url@) {
            Err(_) => r matches Err(e) && e@ == "Invalid OTA URL"@,
            Ok(parts) => r matches Ok(d) && {
                &&& d.announcement() == trigger
                &&& d.address().host@ == parts.host
                &&& d.address().port == parts.port
                &&& d.address().path@ == parts.path
                &&& !d.streams()
                &&& d.response() == Seq::<u8>::empty()
                &&& d.valid()
            },
        }
    }

    /// The download of the image that a trigger announces, with nothing
    /// received yet.
    pub fn new(trigger: OtaTrigger<'a>) -> (r: Result<Self, &'static str>)
        ensures
            Self::starts_as(trigger, r),
    {
        match parse_https_url(trigger.url) {
            Err(_) => Err("Invalid OTA URL"),
            Ok(url) => Ok(
                Self {
                    trigger,
                    url,
                    header: Vec::new(),
                    in_body: false,
                    received: Ghost(Seq::empty()),
                },
            ),
        }
    }

    /// The announcement of the image.
    pub fn trigger(&self) -> (r: &OtaTrigger<'a>)
        ensures
            *r == self.announcement(),
    {
        &self.trigger
    }

    /// Where the image is.
    pub fn url(&self) -> (r: &ParsedUrl<'a>)
        ensures
            *r == self.address(),
    {
        &self.url
    }

    /// The bytes to read at most.
    pub fn to_read(&self) -> (r: usize)
        requires
            self.valid(),
            self.streams() || self.response().len() <= MAX_HEADER_SIZE,
        ensures
            r == self.wanted(),
    {
        if self.in_body {
            DEFAULT_CHUNK_SIZE
        } else {
            MAX_HEADER_SIZE - self.header.len()
        }
    }

    /// Begins the update that a trigger asks for. `decode` decodes the JSON of
    /// the trigger.
    pub fn begin<F: FlashWriter, D: FnOnce(&'a [u8]) -> Option<OtaTrigger<'a>>>(
        mgr: &mut OtaManager<F>,
        trigger_payload: &'a [u8],
        decode: D,
    ) -> (r: Result<Self, &'static str>)
        requires
            old(mgr).status().state != OtaState::Downloading && old(mgr).status().state
                != OtaState::Finalizing ==> forall|json: &'a [u8]|
                json@ == crate::text::until_zero(trigger_payload@) ==> #[trigger] call_requires(
                    decode,
                    (json,),
                ),
        ensures
            old(mgr).status().state == OtaState::Downloading || old(mgr).status().state
                == OtaState::Finalizing ==> *final(mgr) == *old(mgr) && (r matches Err(e) && e@
                == "Failed to parse OTA trigger"@),
            old(mgr).status().state != OtaState::Downloading && old(mgr).status().state
                != OtaState::Finalizing ==> exists|parsed: Result<OtaTrigger<'a>, &'static str>|
                #[trigger] crate::ota::message::parses_to(trigger_payload, decode, parsed)
                    && match parsed {
                    Err(_) => *final(mgr) == *old(mgr) && (r matches Err(e) && e@
                        == "Failed to parse OTA trigger"@),
                    Ok(trigger) => exists|began: Result<OtaTrigger<'a>, OtaError>| #[trigger]
                        final(mgr).has_begun(*old(mgr), trigger, began) && match began {
                            Err(_) => r matches Err(e) && e@ == "Failed to parse OTA trigger"@,
                            Ok(_) => Self::starts_as(trigger, r),
                        },
                },
            r matches Ok(d) ==> d.in_step(*final(mgr)),
    {
        match mgr.begin_update(trigger_payload, decode) {
            Err(_) => Err("Failed to parse OTA trigger"),
            Ok(trigger) => Self::new(trigger),
        }
    }

    /// Takes in what was read: bytes, none at the end of the connection, or a
    /// failure. Once the headers are complete and report success, the bytes
    /// that follow them go to flash. At the end the image is finalized, if it
    /// has the announced size; nothing else makes it the one that boots next.
    pub fn on_read<F: FlashWriter>(
        &mut self,
        mgr: &mut OtaManager<F>,
        read: Option<&[u8]>,
    ) -> (r: Result<Next, &'static str>)
        requires
            old(self).in_step(*old(mgr)),
            read matches Some(data) ==> data@.len() <= old(self).wanted() && old(
                mgr,
            ).status().bytes_written + data@.len() <= u32::MAX,
        ensures
            final(self).announcement() == old(self).announcement(),
            final(self).address() == old(self).address(),
            match read {
                None => {
                    &&& *final(mgr) == *old(mgr)
                    &&& *final(self) == *old(self)
                    &&& r matches Err(e) && e@ == if old(self).streams() {
                        "OTA body read failed"@
                    } else {
                        "OTA header read failed"@
                    }
                },
                Some(data) => if old(self).streams() {
                    old(self).takes_in_body(*old(mgr), *final(mgr), data@, r)
                } else {
                    old(self).takes_in_headers(*old(mgr), *final(mgr), data@, r)
                },
            },
            r matches Ok(Next::Read(n)) ==> {
                &&& final(self).in_step(*final(mgr))
                &&& final(self).response() == old(self).response() + read.unwrap()@
                &&& n == final(self).wanted()
            },
            read is None || read.unwrap()@.len() > 0 || old(mgr).status().bytes_written
                != old(self).announcement().size ==> (final(mgr).writer()@.boots_next ==> old(
                mgr,
            ).writer()@.boots_next),
            r matches Ok(Next::Done) ==> {
                &&& *final(self) == *old(self)
                &&& final(mgr).writer()@.image == body(old(self).response())
                &&& final(mgr).writer()@.image.len() == old(self).announcement().size
                &&& final(mgr).writer()@.boots_next
            },
    {
        let data: &[u8] = match read {
            Some(data) => data,
            None => {
                return if self.in_body {
                    Err("OTA body read failed")
                } else {
                    Err("OTA header read failed")
                };
            },
        };
        let ghost before = self.received@;
        if self.in_body {
            if data.len() == 0 {
                return match mgr.finalize_update(self.trigger.version) {
                    Ok(_) => Ok(Next::Done),
                    Err(_) => Err("OTA finalize failed"),
                };
            }
            return match mgr.write_chunk(data) {
                Ok(_) => {
                    proof {
                        let i = choose|i: int| first_end(before, i);
                        law_headers_stay(before, data@, i);
                        self.received@ = before + data@;
                    }
                    Ok(Next::Read(DEFAULT_CHUNK_SIZE))
                },
                Err(_) => Err("OTA flash write failed"),
            };
        }
        if data.len() == 0 {
            return Err("OTA connection closed during headers");
        }
        self.header.extend_from_slice(data);
        proof {
            self.received@ = before + data@;
            assert(self.header@ =~= self.received@);
        }
        match find_header_end(self.header.as_slice()) {
            None => {
                if self.header.len() >= MAX_HEADER_SIZE {
                    Err("OTA response headers too large")
                } else {
                    Ok(Next::Read(MAX_HEADER_SIZE - self.header.len()))
                }
            },
            Some(pos) => {
                let header_end: usize = pos + 4;
                proof {
                    law_headers_stay(self.received@, Seq::empty(), pos as int);
                }
                let head: &[u8] = &self.header.as_slice()[0..header_end];
                assert(head@ =~= headers(self.received@));
                if !reports_success(head) {
                    return Err("OTA server returned non-200 status");
                }
                let rest: &[u8] = &self.header.as_slice()[header_end..self.header.len()];
                assert(rest@ =~= body(self.received@));
                if rest.len() > 0 {
                    match mgr.write_chunk(rest) {
                        Ok(_) => {},
                        Err(_) => {
                            return Err("OTA flash write failed");
                        },
                    }
                }
                self.in_body = true;
                Ok(Next::Read(DEFAULT_CHUNK_SIZE))
            },
        }
    }

    /// What follows from bytes that were read after the headers.
    pub open spec fn takes_in_body<F: FlashWriter>(
        &self,
        before: OtaManager<F>,
        after: OtaManager<F>,
        data: Seq<u8>,
        r: Result<Next, &'static str>,
    ) -> bool {
        if data.len() > 0 {
            match r {
                Ok(next) => next == Next::Read(DEFAULT_CHUNK_SIZE) && after.has_written(
                    before,
                    data,
                    None,
                ),
                Err(e) => e@ == "OTA flash write failed"@ && exists|f: OtaError| #[trigger]
                    after.has_written(before, data, Some(f)),
            }
        } else if before.status().bytes_written != self.announcement().size {
            &&& r matches Err(e) && e@ == "OTA finalize failed"@
            &&& after.writer() == before.writer()
            &&& after.status().state == OtaState::Failed
        } else {
            match r {
                Ok(next) => next == Next::Done && after.has_finalized(before, None),
                Err(e) => e@ == "OTA finalize failed"@ && exists|f: OtaError| #[trigger]
                    after.has_finalized(before, Some(f)),
            }
        }
    }

    /// What follows from bytes that were read before the headers were
    /// complete.
    pub open spec fn takes_in_headers<F: FlashWriter>(
        &self,
        before: OtaManager<F>,
        after: OtaManager<F>,
        data: Seq<u8>,
        r: Result<Next, &'static str>,
    ) -> bool {
        let response = self.response() + data;
        if data.len() == 0 {
            after == before && (r matches Err(e) && e@ == "OTA connection closed during headers"@)
        } else if no_end(response) {
            &&& after == before
            &&& if response.len() >= MAX_HEADER_SIZE {
                r matches Err(e) && e@ == "OTA response headers too large"@
            } else {
                r == Ok::<Next, &'static str>(
                    Next::Read((MAX_HEADER_SIZE - response.len()) as usize),
                )
            }
        } else if !is_success(headers(response)) {
            after == before && (r matches Err(e) && e@ == "OTA server returned non-200 status"@)
        } else if body(response).len() == 0 {
            after == before && r == Ok::<Next, &'static str>(Next::Read(DEFAULT_CHUNK_SIZE))
        } else {
            match r {
                Ok(next) => next == Next::Read(DEFAULT_CHUNK_SIZE) && after.has_written(
                    before,
                    body(response),
                    None,
                ),
                Err(e) => e@ == "OTA flash write failed"@ && exists|f: OtaError| #[trigger]
                    after.has_written(before, body(response), Some(f)),
            }
        }
    }
}

/// Whether headers report success.
pub fn reports_success(headers: &[u8]) -> (r: bool)
    ensures
        r == is_success(headers@),
{
    match utf8_text(headers) {
        Some(text) => {
            proof {
                vstd::utf8::encode_utf8_decode_utf8(text@);
            }
            starts_with(text, "HTTP/1.1 200") || starts_with(text, "HTTP/1.0 200")
        },
        None => false,
    }
}

// =============================================================================
// What a download is for
// =============================================================================

/// The way to the response goes through its steps in order, none is left out,
/// and a step that fails ends it with a word about that step.
pub proof fn law_connect_order(step: ConnectStep, ok: bool, r: Result<ConnectStep, &'static str>)
    requires
        call_ensures(next_connect_step, (step, ok), r),
    ensures
        r is Ok <==> ok,
        r == Ok::<ConnectStep, &'static str>(ConnectStep::FirstAddress) <==> ok && step
            == ConnectStep::Resolve,
        r == Ok::<ConnectStep, &'static str>(ConnectStep::Connect) <==> ok && step
            == ConnectStep::FirstAddress,
        r == Ok::<ConnectStep, &'static str>(ConnectStep::OpenTls) <==> ok && step
            == ConnectStep::Connect,
        r == Ok::<ConnectStep, &'static str>(ConnectStep::Handshake) <==> ok && step
            == ConnectStep::OpenTls,
        r == Ok::<ConnectStep, &'static str>(ConnectStep::Send) <==> ok && step
            == ConnectStep::Handshake,
        r == Ok::<ConnectStep, &'static str>(ConnectStep::Receive) <==> ok && (step
            == ConnectStep::Send || step == ConnectStep::Receive),
        r matches Err(e) ==> match step {
            ConnectStep::Resolve => e@ == "OTA DNS lookup failed"@,
            ConnectStep::FirstAddress => e@ == "No IP for OTA host"@,
            ConnectStep::Connect => e@ == "OTA TCP connect failed"@,
            ConnectStep::OpenTls => e@ == "OTA TLS session creation failed"@,
            ConnectStep::Handshake => e@ == "OTA TLS handshake failed"@,
            ConnectStep::Send => e@ == "OTA request send failed"@,
            ConnectStep::Receive => e@ == "OTA header read failed"@,
        },
{
}

/// The name of the server is the one of the host, up to 126 bytes, and ends with
/// the only zero byte that it holds.
pub proof fn law_servername(host: &str, r: Result<Vec<u8>, &'static str>)
    requires
        call_ensures(servername, (host,), r),
    ensures
        ({
            let bytes = vstd::utf8::encode_utf8(host@);
            &&& bytes.len() <= 126 && !bytes.contains(0u8) ==> r is Ok
            &&& r matches Ok(name) ==> {
                &&& name@.len() <= 127
                &&& name@.len() > 0 && name@.last() == 0
                &&& name@.drop_last().is_prefix_of(bytes)
                &&& !name@.drop_last().contains(0u8)
                &&& bytes.len() <= 126 ==> name@.drop_last() == bytes
                &&& bytes.len() > 126 ==> name@.len() == 127
            }
            &&& r is Err ==> bytes.contains(0u8)
        }),
{
    let bytes = vstd::utf8::encode_utf8(host@);
    let cut = servername_bytes(host@);
    assert(cut =~= bytes.subrange(0, cut.len() as int));
    if cut.contains(0u8) {
        let i = choose|i: int| 0 <= i < cut.len() && cut[i] == 0u8;
        assert(bytes[i] == 0u8);
    }
    assert(cut.push(0u8).drop_last() =~= cut);
}

/// The request asks for the path on the host, and for the connection to be
/// closed afterwards, whenever it takes at most 512 bytes.
pub proof fn law_request(path: &str, host: &str, r: Result<heapless::String<512>, &'static str>)
    requires
        call_ensures(request, (path, host), r),
    ensures
        ({
            let text = "GET "@ + path@ + " HTTP/1.1\r\nHost: "@ + host@
                + "\r\nConnection: close\r\n\r\n"@;
            &&& r is Ok <==> vstd::utf8::encode_utf8(text).len() <= 512
            &&& r matches Ok(q) ==> crate::short_text::request_of(q) == text
        }),
{
}

/// Headers end at the first empty line: two line breaks in a row, each of a
/// carriage return and a line feed.
pub proof fn law_end_of_headers(data: &[u8], r: Option<usize>)
    requires
        call_ensures(find_header_end, (data,), r),
    ensures
        r matches Some(i) ==> i + 4 <= data@.len() && data@[i as int] == 13 && data@[i + 1] == 10
            && data@[i + 2] == 13 && data@[i + 3] == 10,
        forall|j: int|
            0 <= j <= data@.len() - 4 && (r matches Some(i) ==> j < i) ==> !(#[trigger] data@[j]
                == 13 && data@[j + 1] == 10 && data@[j + 2] == 13 && data@[j + 3] == 10),
{
    assert forall|j: int|
        0 <= j <= data@.len() - 4 && (r matches Some(i) ==> j < i) implies !(#[trigger] data@[j]
        == 13 && data@[j + 1] == 10 && data@[j + 2] == 13 && data@[j + 3] == 10) by {
        assert(!ends_at(data@, j));
    }
}

/// Headers report success exactly when their first line has the status 200, in
/// either version of the protocol.
pub proof fn law_success(headers: &[u8], r: bool)
    requires
        call_ensures(reports_success, (headers,), r),
    ensures
        r <==> vstd::utf8::valid_utf8(headers@) && ("HTTP/1.1 200"@.is_prefix_of(
            vstd::utf8::decode_utf8(headers@),
        ) || "HTTP/1.0 200"@.is_prefix_of(vstd::utf8::decode_utf8(headers@))),
{
}

/// A download is made for an address that can be taken apart, and goes to its
/// host, port and path. It first reads headers, of at most 1024 bytes.
pub proof fn law_download_start<'a>(
    trigger: OtaTrigger<'a>,
    parts: Result<ParsedUrl<'a>, &'static str>,
    r: Result<Download<'a>, &'static str>,
)
    requires
        call_ensures(parse_https_url, (trigger.url,), parts),
        call_ensures(Download::new, (trigger,), r),
    ensures
        r is Ok <==> parts is Ok,
        r matches Err(e) ==> e@ == "Invalid OTA URL"@,
        r matches Ok(d) ==> {
            &&& d.address().host@ == parts->Ok_0.host@
            &&& d.address().port == parts->Ok_0.port
            &&& d.address().path@ == parts->Ok_0.path@
            &&& d.announcement() == trigger
            &&& d.response().len() == 0
            &&& !d.streams()
            &&& d.wanted() == 1024
        },
{
}

/// What a download does with what it reads. What follows the headers is the
/// image, byte for byte, and it is written as it comes. It is finished when the
/// connection ends, and then it boots next, if it has the size that was
/// announced; nothing else makes it boot. Headers that do not report success,
/// or do not end within 1024 bytes, end the download, and nothing is written.
pub proof fn law_download<'a, F: FlashWriter>(
    d: &mut Download<'a>,
    mgr: &mut OtaManager<F>,
    read: Option<&[u8]>,
    r: Result<Next, &'static str>,
)
    requires
        call_ensures(Download::on_read::<F>, (d, mgr, read), r),
        old(d).in_step(*old(mgr)),
        read matches Some(data) ==> old(mgr).status().bytes_written + data@.len() <= u32::MAX,
    ensures
        read is None ==> r is Err && *final(mgr) == *old(mgr),
        read matches Some(data) ==> {
            let all = old(d).response() + data@;
            &&& r == Ok::<Next, &'static str>(Next::Done) ==> {
                &&& data@.len() == 0 && old(d).streams()
                &&& final(mgr).writer()@.image == old(mgr).writer()@.image
                &&& final(mgr).writer()@.image.len() == old(d).announcement().size
                &&& final(mgr).writer()@.boots_next
            }
            &&& data@.len() == 0 && !old(d).streams() ==> r is Err && *final(mgr) == *old(mgr)
            &&& data@.len() == 0 && old(mgr).writer()@.image.len() != old(d).announcement().size
                ==> r is Err && final(mgr).writer() == old(mgr).writer()
            &&& data@.len() > 0 && final(mgr).writer()@.boots_next ==> old(
                mgr,
            ).writer()@.boots_next
            &&& data@.len() > 0 && old(d).streams() && r is Ok ==> {
                &&& final(mgr).writer()@.image == old(mgr).writer()@.image + data@
                &&& final(mgr).status().bytes_written == old(mgr).status().bytes_written
                    + data@.len()
                &&& r == Ok::<Next, &'static str>(Next::Read(4096))
            }
            &&& data@.len() > 0 && !old(d).streams() && no_end(all) ==> {
                &&& *final(mgr) == *old(mgr)
                &&& all.len() < 1024 ==> r == Ok::<Next, &'static str>(
                    Next::Read((1024 - all.len()) as usize),
                )
                &&& all.len() >= 1024 ==> r is Err
            }
            &&& data@.len() > 0 && !old(d).streams() ==> forall|i: int| #[trigger]
                first_end(all, i) ==> {
                    &&& !is_success(all.take(i + 4)) ==> r is Err && *final(mgr) == *old(mgr)
                    &&& r is Ok ==> is_success(all.take(i + 4)) && final(mgr).writer()@.image
                        == all.skip(i + 4) && r == Ok::<Next, &'static str>(Next::Read(4096))
                }
        },
{
    if let Some(data) = read {
        let all = old(d).response() + data@;
        assert forall|i: int| #[trigger] first_end(all, i) implies header_size(all) == i + 4 by {
            law_headers_stay(all, Seq::empty(), i);
        }
        assert(old(mgr).writer()@.image.len() == old(mgr).status().bytes_written);
        if data@.len() > 0 && !old(d).streams() {
            assert forall|i: int| #[trigger] first_end(all, i) implies !no_end(all) by {
                assert(ends_at(all, i));
            }
            if !no_end(all) && body(all).len() == 0 {
                assert(body(all) =~= Seq::<u8>::empty());
            }
            assert(Seq::<u8>::empty() + body(all) =~= body(all));
        }
    }
}

/// A download tells what was announced and where it is; it reads at most what
/// is left of 1024 bytes for headers, and then at most 4096 bytes at a time.
pub proof fn law_download_tells<'a>(
    d: &Download<'a>,
    trigger: &OtaTrigger<'a>,
    url: &ParsedUrl<'a>,
    n: usize,
)
    requires
        call_ensures(Download::trigger, (d,), trigger),
        call_ensures(Download::url, (d,), url),
        call_ensures(Download::to_read, (d,), n),
    ensures
        *trigger == d.announcement(),
        *url == d.address(),
        d.streams() ==> n == 4096,
        !d.streams() && d.response().len() <= 1024 ==> n + d.response().len() == 1024,
{
}

/// A download that ends early tells at which point, and one that goes on keeps
/// what was announced and where it is.
pub proof fn law_download_faults<'a, F: FlashWriter>(
    d: &mut Download<'a>,
    mgr: &mut OtaManager<F>,
    read: Option<&[u8]>,
    r: Result<Next, &'static str>,
)
    requires
        call_ensures(Download::on_read::<F>, (d, mgr, read), r),
    ensures
        final(d).announcement() == old(d).announcement(),
        final(d).address() == old(d).address(),
        r matches Err(e) ==> match read {
            None => if old(d).streams() {
                e@ == "OTA body read failed"@
            } else {
                e@ == "OTA header read failed"@
            },
            Some(data) => {
                let all = old(d).response() + data@;
                &&& old(d).streams() && data@.len() > 0 ==> e@ == "OTA flash write failed"@
                &&& old(d).streams() && data@.len() == 0 ==> e@ == "OTA finalize failed"@
                &&& !old(d).streams() && data@.len() == 0 ==> e@
                    == "OTA connection closed during headers"@
                &&& !old(d).streams() && data@.len() > 0 && no_end(all) ==> e@
                    == "OTA response headers too large"@
                &&& !old(d).streams() && data@.len() > 0 && !no_end(all) ==> e@ == if is_success(
                    headers(all),
                ) {
                    "OTA flash write failed"@
                } else {
                    "OTA server returned non-200 status"@
                }
            },
        },
        r matches Err(e) ==> e@ == "OTA flash write failed"@ && read is Some && read.unwrap()@.len()
            > 0 && old(d).streams() ==> final(mgr).status().state == OtaState::Failed,
        r matches Ok(Next::Read(_)) ==> final(d).response() == old(d).response()
            + read.unwrap()@,
        r == Ok::<Next, &'static str>(Next::Done) ==> final(mgr).status().state
            == OtaState::Complete,
{
}

/// A download begins with an announcement that begins an update: the update is
/// in progress, nothing is on flash, and the address is the announced one. An
/// announcement that begins none is refused, and then nothing is on its way.
pub proof fn law_download_begins<
    'a,
    F: FlashWriter,
    D: FnOnce(&'a [u8]) -> Option<OtaTrigger<'a>>,
>(
    mgr: &mut OtaManager<F>,
    payload: &'a [u8],
    decode: D,
    r: Result<Download<'a>, &'static str>,
)
    requires
        call_ensures(Download::begin::<F, D>, (mgr, payload, decode), r),
    ensures
        ({
            let busy = old(mgr).status().state == OtaState::Downloading || old(mgr).status().state
                == OtaState::Finalizing;
            let unheard = forall|json: &'a [u8], d: Option<OtaTrigger<'a>>| #[trigger]
                call_ensures(decode, (json,), d) ==> d is None;
            &&& busy || unheard ==> *final(mgr) == *old(mgr) && (r matches Err(e) && e@
                == "Failed to parse OTA trigger"@)
            &&& r matches Err(e) ==> e@ == "Failed to parse OTA trigger"@ || e@
                == "Invalid OTA URL"@ && final(mgr).status().state == OtaState::Downloading
            &&& r matches Ok(d) ==> {
                let t = d.announcement();
                &&& exists|json: &'a [u8]|
                    json@.is_prefix_of(payload@) && !json@.contains(0u8) && #[trigger] call_ensures(
                        decode,
                        (json,),
                        Some(t),
                    )
                &&& d.response().len() == 0 && !d.streams()
                &&& final(mgr).status().state == OtaState::Downloading
                &&& final(mgr).expected() == t.size
                &&& final(mgr).writer()@.size == t.size
                &&& final(mgr).writer()@.crc32 == t.crc32
                &&& final(mgr).writer()@.image.len() == 0
            }
        }),
        final(mgr).writer()@.boots_next ==> old(mgr).writer()@.boots_next,
{
    payload@.index_of_first_ensures(0u8);
    let cut = crate::text::until_zero(payload@);
    assert(cut =~= payload@.subrange(0, cut.len() as int));
    assert(!cut.contains(0u8)) by {
        if cut.contains(0u8) {
            let i = choose|i: int| 0 <= i < cut.len() && cut[i] == 0u8;
            assert(payload@[i] == 0u8);
        }
    }
}

} // verus!
