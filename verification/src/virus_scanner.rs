//! The decisions of virus scanning against a ClamAV daemon: where to
//! connect, the INSTREAM request that carries the data, and how a reply is
//! read. Connecting and exchanging bytes is left to the caller.
use vstd::prelude::*;
use vstd::string::*;
use crate::text::{to_chars, contains_chars, contains_seq, usize_to_decimal, decimal};

verus! {

/// Scans uploads with ClamAV when enabled.
pub struct VirusScanner {
    enabled: bool,
    host: String,
    port: u16,
}

/// The ClamAV host used when none is configured.
pub open spec fn default_clamav_host() -> Seq<char> {
    "clamav"@
}

impl VirusScanner {
    pub closed spec fn is_enabled(&self) -> bool {
        self.enabled
    }

    pub closed spec fn host_name(&self) -> Seq<char> {
        self.host@
    }

    pub closed spec fn port_number(&self) -> u16 {
        self.port
    }

    /// A scanner; the host defaults to `clamav` and the port to 3310.
    pub fn new(enabled: bool, host: Option<String>, port: Option<u16>) -> (r: VirusScanner)
        ensures
            r.is_enabled() == enabled,
            r.host_name() == (match host {
                Some(h) => h@,
                None => default_clamav_host(),
            }),
            r.port_number() == (match port {
                Some(p) => p,
                None => 3310u16,
            }),
    {
        VirusScanner {
            enabled,
            host: match host {
                Some(h) => h,
                None => String::from_str("clamav"),
            },
            port: match port {
                Some(p) => p,
                None => 3310,
            },
        }
    }

    /// Whether uploads are scanned at all.
    pub fn enabled(&self) -> (r: bool)
        ensures
            r == self.is_enabled(),
    {
        self.enabled
    }

    /// The `host:port` address of the daemon.
    pub fn address(&self) -> (r: String)
        ensures
            r@ == self.host_name() + ":"@ + decimal(self.port_number() as nat),
    {
        let mut a = self.host.clone();
        a.append(":");
        a.append(usize_to_decimal(self.port as usize).as_str());
        a
    }

    /// Whether data counts as clean. A disabled scanner and a failed
    /// exchange with the daemon (`None`) let the data through; otherwise
    /// the daemon's reply decides.
    pub fn outcome(&self, reply: Option<&str>) -> (r: bool)
        ensures
            r == (!self.is_enabled() || match reply {
                None => true,
                Some(s) => reply_is_clean(s@),
            }),
    {
        if !self.enabled {
            return true;
        }
        match reply {
            None => true,
            Some(s) => scan_verdict(s),
        }
    }
}

/// A reply containing `OK` is clean; otherwise one containing `FOUND`
/// reports a virus; any other reply is treated as clean.
pub open spec fn reply_is_clean(reply: Seq<char>) -> bool {
    contains_seq(reply, "OK"@) || !contains_seq(reply, "FOUND"@)
}

/// Reads a ClamAV reply.
pub fn scan_verdict(response: &str) -> (r: bool)
    ensures
        r == reply_is_clean(response@),
{
    let chars = to_chars(response);
    if contains_chars(&chars, &to_chars("OK")) {
        return true;
    }
    if contains_chars(&chars, &to_chars("FOUND")) {
        return false;
    }
    true
}

/// The four big-endian bytes of `n`.
pub open spec fn be_bytes(n: u32) -> Seq<u8> {
    seq![
        (n / 0x100_0000) as u8,
        ((n / 0x1_0000) % 0x100) as u8,
        ((n / 0x100) % 0x100) as u8,
        (n % 0x100) as u8,
    ]
}

/// The INSTREAM command with its terminating zero byte.
pub open spec fn instream_command() -> Seq<u8> {
    seq![122u8, 73u8, 78u8, 83u8, 84u8, 82u8, 69u8, 65u8, 77u8, 0u8]
}

/// The request that streams `data` to the daemon: the command, the length
/// of the data as a 32-bit big-endian number (truncated to 32 bits), the
/// data, and a zero-length chunk that ends the stream.
pub open spec fn instream_request_bytes(data: Seq<u8>) -> Seq<u8> {
    instream_command() + be_bytes(data.len() as u32) + data + be_bytes(0)
}

fn push_be(out: &mut Vec<u8>, n: u32)
    ensures
        final(out)@ == old(out)@ + be_bytes(n),
{
    out.push((n / 0x100_0000) as u8);
    out.push(((n / 0x1_0000) % 0x100) as u8);
    out.push(((n / 0x100) % 0x100) as u8);
    out.push((n % 0x100) as u8);
    proof {
        assert(out@ =~= old(out)@ + be_bytes(n));
    }
}

/// Builds the INSTREAM request for `data`.
pub fn instream_request(data: &[u8]) -> (r: Vec<u8>)
    ensures
        r@ == instream_request_bytes(data@),
{
    let mut out: Vec<u8> = vec![122u8, 73u8, 78u8, 83u8, 84u8, 82u8, 69u8, 65u8, 77u8, 0u8];
    proof {
        assert(out@ =~= instream_command());
    }
    #[verifier::truncate]
    let len: u32 = data.len() as u32;
    push_be(&mut out, len);
    let mut i: usize = 0;
    let ghost base = out@;
    while i < data.len()
        invariant
            i <= data.len(),
            out@ == base + data@.take(i as int),
        decreases data.len() - i,
    {
        out.push(data[i]);
        proof {
            assert(out@ =~= base + data@.take(i + 1));
        }
        i = i + 1;
    }
    proof {
        assert(data@.take(data@.len() as int) == data@);
    }
    push_be(&mut out, 0);
    proof {
        assert(out@ =~= instream_request_bytes(data@));
    }
    out
}

proof fn lemma_be_bytes_value(n: u32)
    ensures
        be_bytes(n)[0] as int * 0x100_0000 + be_bytes(n)[1] as int * 0x1_0000 + be_bytes(n)[2] as int
            * 0x100 + be_bytes(n)[3] as int == n as int,
{
    assert(((n / 0x100_0000) as u8) as u32 * 0x100_0000 + (((n / 0x1_0000) % 0x100) as u8) as u32
        * 0x1_0000 + (((n / 0x100) % 0x100) as u8) as u32 * 0x100 + ((n % 0x100) as u8) as u32
        == n) by (bit_vector);
}

/// The layout of an INSTREAM request: the ten bytes `zINSTREAM` and a zero,
/// then four bytes that, read as a big-endian number, give the number of
/// data bytes (modulo 2^32), then the data itself, then four zero bytes
/// that end the stream.
pub proof fn lemma_instream_layout(data: Seq<u8>)
    ensures
        ({
            let r = instream_request_bytes(data);
            &&& r.len() == data.len() + 18
            &&& r.subrange(0, 10) == seq![0x7Au8, 0x49u8, 0x4Eu8, 0x53u8, 0x54u8, 0x52u8, 0x45u8, 0x41u8, 0x4Du8, 0u8]
            &&& r[10] as int * 0x100_0000 + r[11] as int * 0x1_0000 + r[12] as int * 0x100 + r[13] as int
                == (data.len() as u32) as int
            &&& data.len() < 0x1_0000_0000 ==> r[10] as int * 0x100_0000 + r[11] as int * 0x1_0000
                + r[12] as int * 0x100 + r[13] as int == data.len()
            &&& r.subrange(14, 14 + data.len() as int) == data
            &&& r[14 + data.len() as int] == 0 && r[15 + data.len() as int] == 0 && r[16 + data.len() as int] == 0
                && r[17 + data.len() as int] == 0
        }),
{
    let r = instream_request_bytes(data);
    let n = data.len() as u32;
    lemma_be_bytes_value(n);
    lemma_be_bytes_value(0);
    assert(r[10] == be_bytes(n)[0]);
    assert(r[11] == be_bytes(n)[1]);
    assert(r[12] == be_bytes(n)[2]);
    assert(r[13] == be_bytes(n)[3]);
    assert(r.subrange(0, 10) =~= seq![0x7Au8, 0x49u8, 0x4Eu8, 0x53u8, 0x54u8, 0x52u8, 0x45u8, 0x41u8, 0x4Du8, 0u8]);
    assert(r.subrange(14, 14 + data.len() as int) =~= data);
    assert(r[14 + data.len() as int] == be_bytes(0)[0]);
    assert(r[15 + data.len() as int] == be_bytes(0)[1]);
    assert(r[16 + data.len() as int] == be_bytes(0)[2]);
    assert(r[17 + data.len() as int] == be_bytes(0)[3]);
}

} // verus!
