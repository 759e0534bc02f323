use vstd::prelude::*;
use vstd::string::*;

use crate::bytes::find_byte;
use crate::bytes::sub_bytes;
use crate::types::IpVersion;

verus! {

broadcast use vstd::std_specs::vec::group_vec_axioms;

/// Log verbosity, from silent to most talkative.
#[derive(Debug, Clone, Copy, PartialEq, Eq, Structural)]
pub enum LogLevel {
    Off,
    Error,
    Warn,
    Info,
    Debug,
    Trace,
}

/// Scheduler knobs: worker count, global request rate and burst.
#[derive(Debug, Clone)]
pub struct SchedulerConfig {
    /// Number of worker threads (0 = auto = CPU count).
    pub concurrency: usize,
    /// Global maximum requests per second (0 = unlimited).
    pub requests_per_second: u32,
    /// Short-term burst allowance for the limiter, in tokens.
    pub burst: u32,
}

/// Pacing between attempts to the same domain.
#[derive(Debug, Clone)]
pub struct DelayConfig {
    /// Delay between attempts to the same domain, in milliseconds.
    pub inter_attempt_delay_ms: u64,
}

/// Input and output locations, and which artefacts to save.
#[derive(Debug, Clone)]
pub struct IOConfig {
    /// Input directory; created if missing.
    pub in_dir: String,
    /// Filename of the domain list inside the input directory.
    pub domains_file_name: String,
    /// Output directory; created if missing.
    pub out_dir: String,
    pub save_recorder_files: bool,
    pub save_qlog_files: bool,
    pub save_keylog_files: bool,
    pub save_session_files: bool,
    /// Summaries as one rotating JSONL stream instead of one sharded file
    /// per connection.
    pub stream_recorder: bool,
}

/// General knobs.
#[derive(Debug, Clone)]
pub struct GeneralConfig {
    /// Log level: OFF, ERROR, WARN, INFO, DEBUG or TRACE.
    pub log_level: LogLevel,
}

/// One QUIC/HTTP-3 client profile; profiles are tried in order.
#[derive(Debug, Clone)]
pub struct ConnectionConfig {
    pub port: u16,
    pub path: String,
    pub user_agent: String,
    pub verify_peer: bool,
    /// ALPN identifiers to advertise, in preference order.
    pub alpn: Vec<String>,
    pub ip_version: IpVersion,
    pub max_idle_timeout_ms: u64,
    pub handshake_timeout_ms: u64,
    pub overall_timeout_ms: u64,
    pub initial_max_data: u64,
    pub initial_max_stream_data_bidi_local: u64,
    pub initial_max_stream_data_bidi_remote: u64,
    pub initial_max_stream_data_uni: u64,
    pub initial_max_streams_bidi: u64,
    pub initial_max_streams_uni: u64,
    pub max_ack_delay: u64,
    pub active_connection_id_limit: u64,
    pub send_udp_payload_size: usize,
    pub max_receive_buffer_size: usize,
    pub enable_multipath: bool,
    /// One of "minrtt", "roundrobin", "redundant".
    pub multipath_algorithm: String,
}

/// The whole configuration file.
#[derive(Debug, Clone)]
pub struct RootConfig {
    pub general: GeneralConfig,
    pub scheduler: SchedulerConfig,
    pub delay: DelayConfig,
    pub io: IOConfig,
    /// Probe profiles, tried in order until one succeeds.
    pub connection_config: Vec<ConnectionConfig>,
}

pub fn default_concurrency() -> (r: usize)
    ensures
        r == 0,
{
    0
}

pub fn default_requests_per_second() -> (r: u32)
    ensures
        r == 200,
{
    200
}

pub fn default_burst() -> (r: u32)
    ensures
        r == 200,
{
    200
}

pub fn default_inter_attempt_delay_ms() -> (r: u64)
    ensures
        r == 200,
{
    200
}

pub fn default_port() -> (r: u16)
    ensures
        r == 443,
{
    443
}

pub fn default_path() -> (r: String)
    ensures
        r@ == "/"@,
{
    String::from_str("/")
}

pub fn default_user_agent() -> (r: String)
    ensures
        r@ == "quic-lab (research probe)"@,
{
    String::from_str("quic-lab (research probe)")
}

pub fn default_verify_peer() -> (r: bool)
    ensures
        r,
{
    true
}

pub fn default_alpn() -> (r: Vec<String>)
    ensures
        r@.len() == 1,
        r@[0]@ == "h3"@,
{
    let mut v: Vec<String> = Vec::new();
    v.push(String::from_str("h3"));
    v
}

pub fn default_max_idle_timeout_ms() -> (r: u64)
    ensures
        r == 30000,
{
    30000
}

pub fn default_handshake_timeout_ms() -> (r: u64)
    ensures
        r == 10000,
{
    10000
}

pub fn default_overall_timeout_ms() -> (r: u64)
    ensures
        r == 30000,
{
    30000
}

pub fn default_initial_max_data() -> (r: u64)
    ensures
        r == 10_485_760,
{
    10_485_760
}

pub fn default_initial_max_stream_data_bidi_local() -> (r: u64)
    ensures
        r == 5_242_880,
{
    5_242_880
}

pub fn default_initial_max_stream_data_bidi_remote() -> (r: u64)
    ensures
        r == 2_097_152,
{
    2_097_152
}

pub fn default_initial_max_stream_data_uni() -> (r: u64)
    ensures
        r == 1_048_576,
{
    1_048_576
}

pub fn default_initial_max_streams_bidi() -> (r: u64)
    ensures
        r == 200,
{
    200
}

pub fn default_initial_max_streams_uni() -> (r: u64)
    ensures
        r == 100,
{
    100
}

pub fn default_max_ack_delay() -> (r: u64)
    ensures
        r == 25,
{
    25
}

pub fn default_active_connection_id_limit() -> (r: u64)
    ensures
        r == 2,
{
    2
}

pub fn default_send_udp_payload_size() -> (r: usize)
    ensures
        r == 1200,
{
    1200
}

pub fn default_max_receive_buffer_size() -> (r: usize)
    ensures
        r == 65536,
{
    65536
}

pub fn default_enable_multipath() -> (r: bool)
    ensures
        !r,
{
    false
}

pub fn default_multipath_algorithm() -> (r: String)
    ensures
        r@ == "minrtt"@,
{
    String::from_str("minrtt")
}

pub fn default_in_dir() -> (r: String)
    ensures
        r@ == "in"@,
{
    String::from_str("in")
}

pub fn default_domains_file_name() -> (r: String)
    ensures
        r@ == "domains.txt"@,
{
    String::from_str("domains.txt")
}

pub fn default_out_dir() -> (r: String)
    ensures
        r@ == "out"@,
{
    String::from_str("out")
}

pub fn default_log_level() -> (r: LogLevel)
    ensures
        r == LogLevel::Info,
{
    LogLevel::Info
}

impl Default for SchedulerConfig {
    fn default() -> (r: Self)
        ensures
            r.concurrency == 0,
            r.requests_per_second == 200,
            r.burst == 200,
    {
        SchedulerConfig {
            concurrency: default_concurrency(),
            requests_per_second: default_requests_per_second(),
            burst: default_burst(),
        }
    }
}

impl Default for DelayConfig {
    fn default() -> (r: Self)
        ensures
            r.inter_attempt_delay_ms == 200,
    {
        DelayConfig { inter_attempt_delay_ms: default_inter_attempt_delay_ms() }
    }
}

impl Default for IOConfig {
    fn default() -> (r: Self)
        ensures
            r.in_dir@ == "in"@,
            r.domains_file_name@ == "domains.txt"@,
            r.out_dir@ == "out"@,
            r.save_recorder_files,
            r.save_qlog_files,
            !r.save_keylog_files,
            !r.save_session_files,
            !r.stream_recorder,
    {
        IOConfig {
            in_dir: default_in_dir(),
            domains_file_name: default_domains_file_name(),
            out_dir: default_out_dir(),
            save_recorder_files: true,
            save_qlog_files: true,
            save_keylog_files: false,
            save_session_files: false,
            stream_recorder: false,
        }
    }
}

impl Default for GeneralConfig {
    fn default() -> (r: Self)
        ensures
            r.log_level == LogLevel::Info,
    {
        GeneralConfig { log_level: default_log_level() }
    }
}

impl Default for ConnectionConfig {
    fn default() -> (r: Self)
        ensures
            r.port == 443,
            r.path@ == "/"@,
            r.verify_peer,
            r.alpn@.len() == 1 && r.alpn@[0]@ == "h3"@,
            r.ip_version == IpVersion::Auto,
            r.max_idle_timeout_ms == 30000,
            r.handshake_timeout_ms == 10000,
            r.overall_timeout_ms == 30000,
            !r.enable_multipath,
            r.multipath_algorithm@ == "minrtt"@,
    {
        ConnectionConfig {
            port: default_port(),
            path: default_path(),
            user_agent: default_user_agent(),
            verify_peer: default_verify_peer(),
            alpn: default_alpn(),
            ip_version: IpVersion::Auto,
            max_idle_timeout_ms: default_max_idle_timeout_ms(),
            handshake_timeout_ms: default_handshake_timeout_ms(),
            overall_timeout_ms: default_overall_timeout_ms(),
            initial_max_data: default_initial_max_data(),
            initial_max_stream_data_bidi_local: default_initial_max_stream_data_bidi_local(),
            initial_max_stream_data_bidi_remote: default_initial_max_stream_data_bidi_remote(),
            initial_max_stream_data_uni: default_initial_max_stream_data_uni(),
            initial_max_streams_bidi: default_initial_max_streams_bidi(),
            initial_max_streams_uni: default_initial_max_streams_uni(),
            max_ack_delay: default_max_ack_delay(),
            active_connection_id_limit: default_active_connection_id_limit(),
            send_udp_payload_size: default_send_udp_payload_size(),
            max_receive_buffer_size: default_max_receive_buffer_size(),
            enable_multipath: default_enable_multipath(),
            multipath_algorithm: default_multipath_algorithm(),
        }
    }
}

impl Default for RootConfig {
    fn default() -> (r: Self)
        ensures
            r.connection_config@.len() == 0,
    {
        RootConfig {
            general: GeneralConfig::default(),
            scheduler: SchedulerConfig::default(),
            delay: DelayConfig::default(),
            io: IOConfig::default(),
            connection_config: Vec::new(),
        }
    }
}

/// Guarantees at least one probe profile: a parsed configuration without any
/// `[[connection_config]]` gets the default profile.
pub fn normalize_root(cfg: RootConfig) -> (r: RootConfig)
    ensures
        r.connection_config@.len() >= 1,
        cfg.connection_config@.len() > 0 ==> r.connection_config@ == cfg.connection_config@,
        cfg.connection_config@.len() == 0 ==> {
            let p = r.connection_config@[0];
            &&& r.connection_config@.len() == 1
            &&& p.port == 443
            &&& p.path@ == "/"@
            &&& p.verify_peer
            &&& p.alpn@.len() == 1 && p.alpn@[0]@ == "h3"@
            &&& p.ip_version == IpVersion::Auto
            &&& p.max_idle_timeout_ms == 30000
            &&& p.handshake_timeout_ms == 10000
            &&& p.overall_timeout_ms == 30000
            &&& !p.enable_multipath
            &&& p.multipath_algorithm@ == "minrtt"@
        },
        r.general == cfg.general,
        r.scheduler == cfg.scheduler,
        r.delay == cfg.delay,
        r.io == cfg.io,
{
    let mut cfg = cfg;
    if cfg.connection_config.len() == 0 {
        cfg.connection_config.push(ConnectionConfig::default());
    }
    cfg
}

/// The worker count a scheduler setting yields on a machine with
/// `logical_cpus` processors: the setting itself, or the processor count
/// (at least one) when the setting is zero.
pub fn effective_concurrency(concurrency: usize, logical_cpus: usize) -> (r: usize)
    ensures
        concurrency > 0 ==> r == concurrency,
        concurrency == 0 && logical_cpus >= 1 ==> r == logical_cpus,
        concurrency == 0 && logical_cpus == 0 ==> r == 1,
        r >= 1,
{
    if concurrency > 0 {
        concurrency
    } else if logical_cpus >= 1 {
        logical_cpus
    } else {
        1
    }
}

/// Whether a byte is blank: any ASCII whitespace — space, tab, line feed,
/// vertical tab, form feed or carriage return.
pub open spec fn is_space(b: u8) -> bool {
    b == 32 || b == 9 || b == 10 || b == 11 || b == 12 || b == 13
}

/// The bytes before the first `#`.
pub open spec fn strip_comment(s: Seq<u8>) -> Seq<u8> {
    match find_byte(s, 35) {
        Some(i) => s.subrange(0, i),
        None => s,
    }
}

/// The bytes with leading blanks removed.
pub open spec fn trim_left(s: Seq<u8>) -> Seq<u8>
    decreases s.len(),
{
    if s.len() > 0 && is_space(s[0]) {
        trim_left(s.subrange(1, s.len() as int))
    } else {
        s
    }
}

/// The bytes with trailing blanks removed.
pub open spec fn trim_right(s: Seq<u8>) -> Seq<u8>
    decreases s.len(),
{
    if s.len() > 0 && is_space(s[s.len() - 1]) {
        trim_right(s.subrange(0, s.len() - 1))
    } else {
        s
    }
}

/// What one line of the domain file stands for: the trimmed text before any
/// comment, or nothing when only blanks or a comment remain.
pub open spec fn clean_domain_line_spec(s: Seq<u8>) -> Option<Seq<u8>> {
    let c = trim_right(trim_left(strip_comment(s)));
    if c.len() == 0 {
        None
    } else {
        Some(c)
    }
}

proof fn lemma_trim_left_skip(s: Seq<u8>, k: int)
    requires
        0 <= k <= s.len(),
        forall|i: int| 0 <= i < k ==> is_space(s[i]),
        k < s.len() ==> !is_space(s[k]),
    ensures
        trim_left(s) == s.subrange(k, s.len() as int),
    decreases k,
{
    if k == 0 {
        assert(s.subrange(0, s.len() as int) =~= s);
    } else {
        let rest = s.subrange(1, s.len() as int);
        lemma_trim_left_skip(rest, k - 1);
        assert(rest.subrange(k - 1, rest.len() as int) =~= s.subrange(k, s.len() as int));
    }
}

proof fn lemma_trim_right_skip(s: Seq<u8>, k: int)
    requires
        0 <= k <= s.len(),
        forall|i: int| k <= i < s.len() ==> is_space(s[i]),
        k > 0 ==> !is_space(s[k - 1]),
    ensures
        trim_right(s) == s.subrange(0, k),
    decreases s.len() - k,
{
    if k == s.len() {
        assert(s.subrange(0, s.len() as int) =~= s);
    } else {
        let rest = s.subrange(0, s.len() - 1);
        lemma_trim_right_skip(rest, k);
        assert(rest.subrange(0, k) =~= s.subrange(0, k));
    }
}

/// Reads one line of the domain file: text before any `#` comment, trimmed;
/// lines of only blanks or comments yield nothing.
pub fn clean_domain_line(line: &Vec<u8>) -> (r: Option<Vec<u8>>)
    ensures
        match r {
            Some(v) => clean_domain_line_spec(line@) == Some(v@),
            None => clean_domain_line_spec(line@) is None,
        },
{
    proof {
        assert(line@.subrange(0, line@.len() as int) =~= line@);
    }
    let hash = crate::bytes::find_byte_from(line, 35, 0);
    let end0: usize = match hash {
        Some(i) => i,
        None => line.len(),
    };
    let cut = sub_bytes(line, 0, end0);
    proof {
        assert(cut@ == strip_comment(line@));
    }
    let n: usize = cut.len();
    let mut start: usize = 0;
    while start < n && (cut[start] == 32 || (9 <= cut[start] && cut[start] <= 13))
        invariant
            n == cut@.len(),
            0 <= start <= n,
            forall|i: int| 0 <= i < start ==> is_space(cut@[i]),
        decreases n - start,
    {
        start += 1;
    }
    let mut end: usize = n;
    while end > start && (cut[end - 1] == 32 || (9 <= cut[end - 1] && cut[end - 1] <= 13))
        invariant
            n == cut@.len(),
            0 <= start <= end <= n,
            forall|i: int| 0 <= i < start ==> is_space(cut@[i]),
            start < n ==> !is_space(cut@[start as int]),
            forall|i: int| end <= i < n ==> is_space(cut@[i]),
        decreases end,
    {
        end -= 1;
    }
    proof {
        lemma_trim_left_skip(cut@, start as int);
        let tl = cut@.subrange(start as int, n as int);
        if end == start {
            lemma_trim_right_skip(tl, 0);
        } else {
            lemma_trim_right_skip(tl, end - start);
            assert(!is_space(tl[end - start - 1]));
        }
        assert(trim_right(trim_left(strip_comment(line@))) == tl.subrange(0, end - start));
        assert(tl.subrange(0, end - start) =~= cut@.subrange(start as int, end as int));
    }
    if end == start {
        None
    } else {
        Some(sub_bytes(&cut, start, end))
    }
}

/// A line of only blanks, or only a comment, is skipped: it yields nothing,
/// and no error.
pub proof fn lemma_blank_line_skipped(s: Seq<u8>)
    requires
        forall|i: int| 0 <= i < strip_comment(s).len() ==> is_space(#[trigger] strip_comment(s)[i]),
    ensures
        clean_domain_line_spec(s) is None,
{
    let c = strip_comment(s);
    lemma_trim_left_skip(c, c.len() as int);
    assert(trim_left(c) =~= Seq::<u8>::empty());
    assert(trim_right(trim_left(c)).len() == 0);
}

} // verus!
