use vstd::prelude::*;

use crate::config::ConnectionConfig;

verus! {

/// Which IP family to use when probing (config values: "auto", "ipv4", "ipv6", "both").
#[derive(Debug, Clone, Copy, PartialEq, Eq, Structural)]
pub enum IpVersion {
    Auto,
    Ipv4,
    Ipv6,
    Both,
}

impl Default for IpVersion {
    fn default() -> (r: Self)
        ensures
            r == IpVersion::Auto,
    {
        IpVersion::Auto
    }
}

/// Classification of one finished attempt: `retryable` is true when the
/// failure looked like a timeout or an ICMP-level rejection, so that trying
/// the other IP family still makes sense.
#[derive(Debug, Clone, Copy, PartialEq, Eq, Structural)]
pub struct ProbeOutcome {
    pub retryable: bool,
}

impl ProbeOutcome {
    pub fn success() -> (r: Self)
        ensures
            !r.retryable,
    {
        Self { retryable: false }
    }

    pub fn retryable_fail() -> (r: Self)
        ensures
            r.retryable,
    {
        Self { retryable: true }
    }

    pub fn nonretryable_fail() -> (r: Self)
        ensures
            !r.retryable,
    {
        Self { retryable: false }
    }
}

/// Pretty label for logs.
pub fn family_label(f: IpVersion) -> (r: &'static str)
    ensures
        f == IpVersion::Auto ==> r@ == "Auto"@,
        f == IpVersion::Ipv4 ==> r@ == "IPv4"@,
        f == IpVersion::Ipv6 ==> r@ == "IPv6"@,
        f == IpVersion::Both ==> r@ == "Both"@,
{
    match f {
        IpVersion::Auto => "Auto",
        IpVersion::Ipv4 => "IPv4",
        IpVersion::Ipv6 => "IPv6",
        IpVersion::Both => "Both",
    }
}

/// Application-layer outcome of one attempt.
#[derive(Debug, Clone, Copy)]
pub struct Http3Result {
    pub attempted: bool,
    pub status: Option<u16>,
}

/// One attempt's record, as written by the streaming recorder.
#[derive(Debug)]
pub struct ProbeRecord {
    pub host: String,
    pub fam: String,
    pub peer_addr: String,
    pub t_start_ms: u64,
    pub t_handshake_ok_ms: Option<u64>,
    pub t_end_ms: u64,
    pub alpn: Option<String>,
    pub http3: Http3Result,
    pub error: Option<String>,
    pub cfg: ConnectionConfig,
}

/// Transport counters of one finished connection.
#[derive(Debug, Clone, Copy)]
pub struct BasicStats {
    pub bytes_sent: u64,
    pub bytes_recv: u64,
    pub bytes_lost: u64,
    pub packets_sent: u64,
    pub packets_recv: u64,
    pub packets_lost: u64,
}

/// The summary record written once per terminal connection.
#[derive(Debug)]
pub struct MetaRecord {
    pub host: String,
    pub peer_addr: String,
    pub alpn: Option<String>,
    pub handshake_ok: bool,
    pub local_close: Option<String>,
    pub peer_close: Option<String>,
    pub enable_multipath: bool,
    pub stats: Option<BasicStats>,
}

/// A per-host result of the template probe.
#[derive(Debug)]
pub struct TemplateResult {
    pub host: String,
    pub trace_id: Option<String>,
    pub elapsed_ms: u64,
    pub handshake_ok: bool,
}

} // verus!
