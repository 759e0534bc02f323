use vstd::prelude::*;
use vstd::string::*;
use vstd::utf8::encode_utf8;

use crate::bytes::bytes_eq;
use crate::decimal::dec_str;
use crate::decimal::dec_str_exec;
use crate::decimal::digits_val;
use crate::decimal::lemma_digits_val_mono;
use crate::decimal::is_digit_seq;
use crate::json::clone_bytes;
use crate::json::json_write;
use crate::json::jv;
use crate::json::lemma_jv_fields_index;
use crate::json::ser;
use crate::json::Json;
use crate::json::JsonV;
use crate::minimize::lit;
use crate::minimize::litv;
use crate::types::BasicStats;
use crate::types::MetaRecord;
use crate::types::ProbeOutcome;

verus! {

broadcast use vstd::std_specs::vec::group_vec_axioms;

/// The multipath scheduling algorithms the transport offers.
#[derive(Debug, Clone, Copy, PartialEq, Eq, Structural)]
pub enum MultipathAlgorithm {
    MinRtt,
    RoundRobin,
    Redundant,
}

/// Reads a multipath algorithm name, in either of its accepted spellings.
pub fn parse_mpath_algo(s: &str) -> (r: Option<MultipathAlgorithm>)
    ensures
        r == (if s.spec_bytes() == lit("minrtt") || s.spec_bytes() == lit("min-rtt") {
            Some(MultipathAlgorithm::MinRtt)
        } else if s.spec_bytes() == lit("redundant") || s.spec_bytes() == lit("dup") {
            Some(MultipathAlgorithm::Redundant)
        } else if s.spec_bytes() == lit("roundrobin") || s.spec_bytes() == lit("rr") {
            Some(MultipathAlgorithm::RoundRobin)
        } else {
            None
        }),
{
    let b = s.as_bytes_vec();
    if bytes_eq(&b, &litv("minrtt")) || bytes_eq(&b, &litv("min-rtt")) {
        Some(MultipathAlgorithm::MinRtt)
    } else if bytes_eq(&b, &litv("redundant")) || bytes_eq(&b, &litv("dup")) {
        Some(MultipathAlgorithm::Redundant)
    } else if bytes_eq(&b, &litv("roundrobin")) || bytes_eq(&b, &litv("rr")) {
        Some(MultipathAlgorithm::RoundRobin)
    } else {
        None
    }
}

/// Whether a byte string is a decimal status value that fits a `u16`.
pub open spec fn parse_u16_spec(v: Seq<u8>) -> Option<u16> {
    if v.len() >= 1 && is_digit_seq(v) && digits_val(v) <= u16::MAX {
        Some(digits_val(v) as u16)
    } else {
        None
    }
}

/// Reads a decimal status value: digits only, within `u16` range.
pub fn parse_u16(v: &Vec<u8>) -> (r: Option<u16>)
    ensures
        r == parse_u16_spec(v@),
{
    let n: usize = v.len();
    if n == 0 {
        return None;
    }
    let mut acc: u32 = 0;
    let mut i: usize = 0;
    while i < n
        invariant
            n == v@.len(),
            0 <= i <= n,
            is_digit_seq(v@.subrange(0, i as int)),
            acc == digits_val(v@.subrange(0, i as int)),
            acc <= u16::MAX,
        decreases n - i,
    {
        let b = v[i];
        if b < 48 || b > 57 {
            proof {
                assert(v@.subrange(0, n as int) =~= v@);
                assert(v@.subrange(0, n as int)[i as int] == v@[i as int]);
            }
            return None;
        }
        proof {
            let k = i as int;
            assert(v@.subrange(0, k + 1).subrange(0, k) =~= v@.subrange(0, k));
            assert(v@.subrange(0, k + 1)[k] == v@[k]);
        }
        acc = acc * 10 + ((b - 48) as u32);
        if acc > u16::MAX as u32 {
            proof {
                assert(v@.subrange(0, n as int) =~= v@);
                if is_digit_seq(v@) {
                    lemma_digits_val_mono(v@, i + 1);
                }
            }
            return None;
        }
        i += 1;
    }
    proof {
        assert(v@.subrange(0, n as int) =~= v@);
    }
    Some(acc as u16)
}

/// The first `:status` header whose value is a decimal `u16`.
pub open spec fn extract_status_spec(hs: Seq<(Seq<u8>, Seq<u8>)>) -> Option<u16>
    decreases hs.len(),
{
    if hs.len() == 0 {
        None
    } else if hs[0].0 == lit(":status") && parse_u16_spec(hs[0].1) is Some {
        parse_u16_spec(hs[0].1)
    } else {
        extract_status_spec(hs.subrange(1, hs.len() as int))
    }
}

/// The plain views of a header list.
pub open spec fn hviews(hs: Seq<(Vec<u8>, Vec<u8>)>) -> Seq<(Seq<u8>, Seq<u8>)> {
    Seq::new(hs.len(), |i: int| (hs[i].0@, hs[i].1@))
}

proof fn lemma_extract_status_skip(hs: Seq<(Seq<u8>, Seq<u8>)>, i: int)
    requires
        0 <= i <= hs.len(),
        forall|x: int|
            0 <= x < i ==> !((#[trigger] hs[x]).0 == lit(":status") && parse_u16_spec(hs[x].1)
                is Some),
    ensures
        extract_status_spec(hs) == extract_status_spec(hs.subrange(i, hs.len() as int)),
    decreases i,
{
    if i == 0 {
        assert(hs.subrange(0, hs.len() as int) =~= hs);
    } else {
        lemma_extract_status_skip(hs.subrange(1, hs.len() as int), i - 1);
        assert(hs.subrange(1, hs.len() as int).subrange(i - 1, hs.len() - 1) =~= hs.subrange(
            i,
            hs.len() as int,
        ));
    }
}

/// Extracts `:status` from a header list.
pub fn extract_status(headers: &Vec<(Vec<u8>, Vec<u8>)>) -> (r: Option<u16>)
    ensures
        r == extract_status_spec(hviews(headers@)),
{
    let ghost hv = hviews(headers@);
    let key = litv(":status");
    let n: usize = headers.len();
    let mut i: usize = 0;
    while i < n
        invariant
            n == headers@.len(),
            0 <= i <= n,
            hv == hviews(headers@),
            key@ == lit(":status"),
            forall|x: int|
                0 <= x < i ==> !((#[trigger] hv[x]).0 == lit(":status") && parse_u16_spec(hv[x].1)
                    is Some),
        decreases n - i,
    {
        if bytes_eq(&headers[i].0, &key) {
            let st = parse_u16(&headers[i].1);
            match st {
                Some(code) => {
                    proof {
                        lemma_extract_status_skip(hv, i as int);
                        assert(hv.subrange(i as int, n as int)[0] == hv[i as int]);
                    }
                    return Some(code);
                },
                None => {},
            }
        }
        i += 1;
    }
    proof {
        lemma_extract_status_skip(hv, n as int);
        assert(hv.subrange(n as int, n as int) =~= Seq::<(Seq<u8>, Seq<u8>)>::empty());
    }
    None
}

/// The request headers of the probe's GET.
pub fn build_request_headers(host: &Vec<u8>, path: &Vec<u8>, user_agent: &Vec<u8>) -> (r: Vec<
    (Vec<u8>, Vec<u8>),
>)
    ensures
        r@.len() == 6,
        r@[0].0@ == lit(":method") && r@[0].1@ == lit("GET"),
        r@[1].0@ == lit(":scheme") && r@[1].1@ == lit("https"),
        r@[2].0@ == lit(":authority") && r@[2].1@ == host@,
        r@[3].0@ == lit(":path") && r@[3].1@ == path@,
        r@[4].0@ == lit("user-agent") && r@[4].1@ == user_agent@,
        r@[5].0@ == lit("accept") && r@[5].1@ == lit("*/*"),
{
    let mut out: Vec<(Vec<u8>, Vec<u8>)> = Vec::new();
    out.push((litv(":method"), litv("GET")));
    out.push((litv(":scheme"), litv("https")));
    out.push((litv(":authority"), clone_bytes(host)));
    out.push((litv(":path"), clone_bytes(path)));
    out.push((litv("user-agent"), clone_bytes(user_agent)));
    out.push((litv("accept"), litv("*/*")));
    out
}

/// One application-layer happening the transport reports to the probe.
pub enum H3Event {
    Headers { headers: Vec<(Vec<u8>, Vec<u8>)>, fin: bool },
    Data,
    Finished,
    GoAway,
    Reset,
    PriorityUpdate,
}

/// What the probe asks the transport to do next.
#[derive(Debug, Clone, Copy, PartialEq, Eq, Structural)]
pub enum H3Action {
    /// Close the request stream, then the connection, with code 0.
    CloseOk,
    /// Drain and discard the response body.
    DrainBody,
    Ignore,
}

/// The HTTP/3 probe's state over one connection: it sends one GET, reads
/// the `:status`, drains the body, and records the outcome exactly once.
pub struct H3Machine {
    pub attempted: bool,
    pub status: Option<u16>,
    pub headers_seen: bool,
    pub done: bool,
    pub app_error: bool,
    pub record_emitted: bool,
}

impl H3Machine {
    /// A fresh machine for one connection.
    pub fn new() -> (r: Self)
        ensures
            !r.attempted,
            r.status is None,
            !r.headers_seen,
            !r.done,
            !r.app_error,
            !r.record_emitted,
    {
        H3Machine {
            attempted: false,
            status: None,
            headers_seen: false,
            done: false,
            app_error: false,
            record_emitted: false,
        }
    }

    /// The request stream is open and the GET was sent.
    pub fn on_request_sent(&mut self)
        ensures
            *final(self) == (H3Machine { attempted: true, ..*old(self) }),
    {
        self.attempted = true;
    }

    /// HTTP/3 setup or the send failed: the connection is closed with code 1
    /// and the attempt counts as an application error.
    pub fn on_connect_failed(&mut self)
        ensures
            *final(self) == (H3Machine { done: true, app_error: true, ..*old(self) }),
    {
        self.done = true;
        self.app_error = true;
    }

    /// A polling error other than the no-more-events sentinel.
    pub fn on_h3_error(&mut self)
        ensures
            *final(self) == (H3Machine { done: true, app_error: true, ..*old(self) }),
    {
        self.done = true;
        self.app_error = true;
    }

    /// One polled HTTP/3 event: response headers set the status; headers
    /// with FIN, or the finished event, end the exchange with a clean close;
    /// body data is drained and discarded; the rest is ignored.
    pub fn on_h3_event(&mut self, ev: &H3Event) -> (a: H3Action)
        ensures
            match *ev {
                H3Event::Headers { ref headers, fin } => {
                    &&& final(self).headers_seen
                    &&& final(self).status == (if extract_status_spec(hviews(headers@)) is Some {
                        extract_status_spec(hviews(headers@))
                    } else {
                        old(self).status
                    })
                    &&& final(self).done == (old(self).done || fin)
                    &&& a == (if fin {
                        H3Action::CloseOk
                    } else {
                        H3Action::Ignore
                    })
                    &&& final(self).attempted == old(self).attempted
                    &&& final(self).app_error == old(self).app_error
                    &&& final(self).record_emitted == old(self).record_emitted
                },
                H3Event::Data => *final(self) == *old(self) && a == H3Action::DrainBody,
                H3Event::Finished => *final(self) == (H3Machine { done: true, ..*old(self) }) && a
                    == H3Action::CloseOk,
                _ => *final(self) == *old(self) && a == H3Action::Ignore,
            },
    {
        match ev {
            H3Event::Headers { headers, fin } => {
                let st = extract_status(headers);
                match st {
                    Some(code) => {
                        self.status = Some(code);
                    },
                    None => {},
                }
                self.headers_seen = true;
                if *fin {
                    self.done = true;
                    H3Action::CloseOk
                } else {
                    H3Action::Ignore
                }
            },
            H3Event::Data => H3Action::DrainBody,
            H3Event::Finished => {
                self.done = true;
                H3Action::CloseOk
            },
            H3Event::GoAway => H3Action::Ignore,
            H3Event::Reset => H3Action::Ignore,
            H3Event::PriorityUpdate => H3Action::Ignore,
        }
    }

    /// Builds the connection's summary record, exactly once: a second close
    /// of the same connection yields nothing, so at most one summary is ever
    /// emitted for one connection.
    pub fn on_conn_closed(
        &mut self,
        host: String,
        peer_addr: String,
        alpn: Option<String>,
        handshake_ok: bool,
        local_close: Option<String>,
        peer_close: Option<String>,
        enable_multipath: bool,
        stats: Option<BasicStats>,
    ) -> (r: Option<MetaRecord>)
        ensures
            old(self).record_emitted ==> r is None && *final(self) == *old(self),
            !old(self).record_emitted ==> {
                &&& final(self).record_emitted
                &&& *final(self) == (H3Machine { record_emitted: true, ..*old(self) })
                &&& (r matches Some(m) && m.host == host && m.peer_addr == peer_addr && m.alpn
                    == alpn && m.handshake_ok == handshake_ok && m.local_close == local_close
                    && m.peer_close == peer_close && m.enable_multipath == enable_multipath
                    && m.stats == stats)
            },
    {
        if self.record_emitted {
            return None;
        }
        self.record_emitted = true;
        Some(
            MetaRecord {
                host,
                peer_addr,
                alpn,
                handshake_ok,
                local_close,
                peer_close,
                enable_multipath,
                stats,
            },
        )
    }
}

/// The JSON form of the transport counters.
pub open spec fn stats_jv(st: BasicStats) -> JsonV {
    JsonV::Obj(
        seq![
            (lit("bytes_sent"), JsonV::Num(dec_str(st.bytes_sent as nat))),
            (lit("bytes_recv"), JsonV::Num(dec_str(st.bytes_recv as nat))),
            (lit("bytes_lost"), JsonV::Num(dec_str(st.bytes_lost as nat))),
            (lit("packets_sent"), JsonV::Num(dec_str(st.packets_sent as nat))),
            (lit("packets_recv"), JsonV::Num(dec_str(st.packets_recv as nat))),
            (lit("packets_lost"), JsonV::Num(dec_str(st.packets_lost as nat))),
        ],
    )
}

/// The JSON form of a summary record.
pub open spec fn meta_jv(m: MetaRecord) -> JsonV {
    JsonV::Obj(
        seq![
            (lit("host"), JsonV::Str(encode_utf8(m.host@))),
            (lit("peer_addr"), JsonV::Str(encode_utf8(m.peer_addr@))),
            (
                lit("alpn"),
                match m.alpn {
                    Some(a) => JsonV::Str(encode_utf8(a@)),
                    None => JsonV::Null,
                },
            ),
            (lit("handshake_ok"), JsonV::Bool(m.handshake_ok)),
            (
                lit("local_close"),
                match m.local_close {
                    Some(c) => JsonV::Str(encode_utf8(c@)),
                    None => JsonV::Null,
                },
            ),
            (
                lit("peer_close"),
                match m.peer_close {
                    Some(c) => JsonV::Str(encode_utf8(c@)),
                    None => JsonV::Null,
                },
            ),
            (lit("enable_multipath"), JsonV::Bool(m.enable_multipath)),
            (
                lit("stats"),
                match m.stats {
                    Some(st) => stats_jv(st),
                    None => JsonV::Null,
                },
            ),
        ],
    )
}

fn opt_string_json(v: &Option<String>) -> (r: Json)
    ensures
        jv(r) == (match *v {
            Some(ref a) => JsonV::Str(encode_utf8(a@)),
            None => JsonV::Null,
        }),
{
    match v {
        Some(a) => Json::Str(a.as_str().as_bytes_vec()),
        None => Json::Null,
    }
}

/// The summary record as a JSON document.
pub fn meta_record_json(m: &MetaRecord) -> (r: Json)
    ensures
        jv(r) == meta_jv(*m),
{
    let stats_json: Json = match &m.stats {
        Some(st) => {
            let mut sf: Vec<(Vec<u8>, Json)> = Vec::new();
            sf.push((litv("bytes_sent"), Json::Num(dec_str_exec(st.bytes_sent))));
            sf.push((litv("bytes_recv"), Json::Num(dec_str_exec(st.bytes_recv))));
            sf.push((litv("bytes_lost"), Json::Num(dec_str_exec(st.bytes_lost))));
            sf.push((litv("packets_sent"), Json::Num(dec_str_exec(st.packets_sent))));
            sf.push((litv("packets_recv"), Json::Num(dec_str_exec(st.packets_recv))));
            sf.push((litv("packets_lost"), Json::Num(dec_str_exec(st.packets_lost))));
            let sj = Json::Obj(sf);
            proof {
                lemma_jv_fields_index(sj->Obj_0@);
                assert(crate::json::jv_fields(sj->Obj_0@) =~= stats_jv(*st)->Obj_0);
            }
            sj
        },
        None => Json::Null,
    };
    let mut fields: Vec<(Vec<u8>, Json)> = Vec::new();
    fields.push((litv("host"), Json::Str(m.host.as_str().as_bytes_vec())));
    fields.push((litv("peer_addr"), Json::Str(m.peer_addr.as_str().as_bytes_vec())));
    fields.push((litv("alpn"), opt_string_json(&m.alpn)));
    fields.push((litv("handshake_ok"), Json::Bool(m.handshake_ok)));
    fields.push((litv("local_close"), opt_string_json(&m.local_close)));
    fields.push((litv("peer_close"), opt_string_json(&m.peer_close)));
    fields.push((litv("enable_multipath"), Json::Bool(m.enable_multipath)));
    fields.push((litv("stats"), stats_json));
    let r = Json::Obj(fields);
    proof {
        let fs = r->Obj_0@;
        lemma_jv_fields_index(fs);
        assert(fs.len() == 8);
        assert(crate::json::jv_fields(fs) =~= meta_jv(*m)->Obj_0);
    }
    r
}

/// The serialised summary record.
pub fn meta_record_bytes(m: &MetaRecord) -> (r: Vec<u8>)
    ensures
        r@ == ser(meta_jv(*m)),
{
    let j = meta_record_json(m);
    let mut out: Vec<u8> = Vec::new();
    json_write(&j, &mut out);
    proof {
        assert(out@ =~= ser(meta_jv(*m)));
    }
    out
}

/// What ended one driver loop turn.
#[derive(Debug, Clone, Copy, PartialEq, Eq, Structural)]
pub enum Verdict {
    Continue,
    Done,
    HandshakeTimeout,
    OverallTimeout,
}

/// The two deadlines of an attempt, measured from its start.
pub fn deadlines(t_start_ms: u64, handshake_timeout_ms: u64, overall_timeout_ms: u64) -> (r: (
    u64,
    u64,
))
    ensures
        r.0 == (if t_start_ms + handshake_timeout_ms <= u64::MAX {
            (t_start_ms + handshake_timeout_ms) as u64
        } else {
            u64::MAX
        }),
        r.1 == (if t_start_ms + overall_timeout_ms <= u64::MAX {
            (t_start_ms + overall_timeout_ms) as u64
        } else {
            u64::MAX
        }),
{
    (t_start_ms.saturating_add(handshake_timeout_ms), t_start_ms.saturating_add(overall_timeout_ms))
}

/// The terminal checks of one loop turn, in their fixed order: the
/// application finished; the handshake missed its deadline; the attempt
/// missed its overall deadline; otherwise the loop goes on.
pub fn check_terminal(
    done: bool,
    handshake_ok: bool,
    now_ms: u64,
    handshake_deadline: u64,
    overall_deadline: u64,
) -> (v: Verdict)
    ensures
        done ==> v == Verdict::Done,
        !done && !handshake_ok && now_ms >= handshake_deadline ==> v == Verdict::HandshakeTimeout,
        !done && (handshake_ok || now_ms < handshake_deadline) && now_ms >= overall_deadline ==> v
            == Verdict::OverallTimeout,
        !done && (handshake_ok || now_ms < handshake_deadline) && now_ms < overall_deadline ==> v
            == Verdict::Continue,
{
    if done {
        Verdict::Done
    } else if !handshake_ok && now_ms >= handshake_deadline {
        Verdict::HandshakeTimeout
    } else if now_ms >= overall_deadline {
        Verdict::OverallTimeout
    } else {
        Verdict::Continue
    }
}

/// How one attempt ended, for retry classification.
#[derive(Debug, Clone, Copy, PartialEq, Eq, Structural)]
pub enum TerminalError {
    ConnectionRefused,
    HostUnreachable,
    HandshakeTimeout,
    OverallTimeout,
    ApplicationError,
    TransportError,
}

/// Whether trying the other IP family still makes sense after this error:
/// refusals, unreachable hosts and the two timeouts are retryable; every
/// other terminal state is not.
pub fn is_retryable(e: TerminalError) -> (r: bool)
    ensures
        r == (e == TerminalError::ConnectionRefused || e == TerminalError::HostUnreachable || e
            == TerminalError::HandshakeTimeout || e == TerminalError::OverallTimeout),
{
    match e {
        TerminalError::ConnectionRefused => true,
        TerminalError::HostUnreachable => true,
        TerminalError::HandshakeTimeout => true,
        TerminalError::OverallTimeout => true,
        TerminalError::ApplicationError => false,
        TerminalError::TransportError => false,
    }
}

/// The outcome of one attempt: success when the handshake completed and no
/// retryable error ended it, a retryable failure otherwise.
pub fn classify_outcome(handshake_ok: bool, error: Option<TerminalError>) -> (r: ProbeOutcome)
    ensures
        ({
            let retry = match error {
                Some(e) => e == TerminalError::ConnectionRefused || e
                    == TerminalError::HostUnreachable || e == TerminalError::HandshakeTimeout || e
                    == TerminalError::OverallTimeout,
                None => !handshake_ok,
            };
            r.retryable == retry
        }),
{
    match error {
        Some(e) => {
            if is_retryable(e) {
                ProbeOutcome::retryable_fail()
            } else {
                ProbeOutcome::nonretryable_fail()
            }
        },
        None => {
            if handshake_ok {
                ProbeOutcome::success()
            } else {
                ProbeOutcome::retryable_fail()
            }
        },
    }
}

/// Finish flag shared between the driver loop and the transport callbacks.
pub struct ClientContext {
    pub finish: bool,
}

impl ClientContext {
    pub fn new() -> (r: Self)
        ensures
            !r.finish,
    {
        ClientContext { finish: false }
    }

    pub fn set_finish(&mut self, finish: bool)
        ensures
            final(self).finish == finish,
    {
        self.finish = finish;
    }

    pub fn finish(&self) -> (r: bool)
        ensures
            r == self.finish,
    {
        self.finish
    }
}

/// Strict lexicographic order on (profile, address) attempt positions.
pub open spec fn lex_lt(a: (int, int), b: (int, int)) -> bool {
    a.0 < b.0 || (a.0 == b.0 && a.1 < b.1)
}

pub open spec fn lex_le(a: (int, int), b: (int, int)) -> bool {
    lex_lt(a, b) || a == b
}

/// Where the per-host sequencing stands.
#[derive(Debug, Clone, Copy, PartialEq, Eq, Structural)]
pub enum Phase {
    Resolving,
    Attempting,
    Finished,
}

/// What the caller observed since the last step.
pub enum ProbeEvent {
    /// The current profile's targets resolved to `n_addrs` addresses.
    Resolved { n_addrs: usize },
    /// Resolution failed; the host is abandoned with an error.
    ResolveFailed,
    /// The running attempt ended, classified for family fallback.
    AttemptDone { retryable: bool },
}

/// What the caller is to do next.
#[derive(Debug, Clone, Copy, PartialEq, Eq, Structural)]
pub enum ProbeStep {
    /// Run the attempt at this profile and address position.
    RunAttempt { profile: usize, addr: usize },
    /// Pause for the configured inter-attempt delay, then resolve the next
    /// profile.
    NextProfile,
    /// The host is finished.
    Done,
}

/// Per-host sequencing: profiles in declaration order, within a profile the
/// resolved addresses in order, stopping at the first non-retryable outcome.
pub struct Orchestrator {
    pub n_profiles: usize,
    pub profile_idx: usize,
    pub addr_idx: usize,
    pub n_addrs: usize,
    pub phase: Phase,
    /// Every attempt position handed out, in order.
    pub attempts: Ghost<Seq<(int, int)>>,
}

impl Orchestrator {
    /// The current attempt position.
    pub open spec fn cur(self) -> (int, int) {
        (self.profile_idx as int, self.addr_idx as int)
    }

    pub open spec fn wf(self) -> bool {
        &&& (self.phase == Phase::Attempting ==> self.profile_idx < self.n_profiles
            && self.addr_idx < self.n_addrs)
        &&& (self.phase == Phase::Resolving ==> self.profile_idx < self.n_profiles)
        &&& (forall|i: int, j: int|
            0 <= i < j < self.attempts@.len() ==> lex_lt(
                #[trigger] self.attempts@[i],
                #[trigger] self.attempts@[j],
            ))
        &&& (forall|i: int|
            0 <= i < self.attempts@.len() ==> lex_le(#[trigger] self.attempts@[i], self.cur()))
        &&& (self.phase == Phase::Resolving ==> forall|i: int|
            0 <= i < self.attempts@.len() ==> (#[trigger] self.attempts@[i]).0 < self.profile_idx)
    }

    /// Starts the sequencing for a non-empty profile list.
    pub fn new(n_profiles: usize) -> (r: Self)
        requires
            n_profiles >= 1,
        ensures
            r.wf(),
            r.phase == Phase::Resolving,
            r.profile_idx == 0,
            r.n_profiles == n_profiles,
            r.attempts@ == Seq::<(int, int)>::empty(),
    {
        Orchestrator {
            n_profiles,
            profile_idx: 0,
            addr_idx: 0,
            n_addrs: 0,
            phase: Phase::Resolving,
            attempts: Ghost(Seq::empty()),
        }
    }

    /// Advances the sequencing on one observation. Attempts are handed out
    /// in strictly increasing profile-then-address order, and the first
    /// non-retryable outcome finishes the host.
    pub fn step(&mut self, ev: &ProbeEvent) -> (a: ProbeStep)
        requires
            old(self).wf(),
            match *ev {
                ProbeEvent::Resolved { n_addrs } => old(self).phase == Phase::Resolving && n_addrs
                    >= 1,
                ProbeEvent::ResolveFailed => old(self).phase == Phase::Resolving,
                ProbeEvent::AttemptDone { .. } => old(self).phase == Phase::Attempting,
            },
        ensures
            final(self).wf(),
            final(self).n_profiles == old(self).n_profiles,
            final(self).profile_idx >= old(self).profile_idx,
            match *ev {
                ProbeEvent::Resolved { n_addrs } => {
                    &&& final(self).phase == Phase::Attempting
                    &&& final(self).profile_idx == old(self).profile_idx
                    &&& final(self).addr_idx == 0
                    &&& final(self).n_addrs == n_addrs
                    &&& a == (ProbeStep::RunAttempt { profile: old(self).profile_idx, addr: 0 })
                    &&& final(self).attempts@ == old(self).attempts@.push(final(self).cur())
                },
                ProbeEvent::ResolveFailed => final(self).phase == Phase::Finished && a
                    == ProbeStep::Done && final(self).attempts@ == old(self).attempts@,
                ProbeEvent::AttemptDone { retryable } => {
                    &&& (!retryable ==> final(self).phase == Phase::Finished && a == ProbeStep::Done
                        && final(self).attempts@ == old(self).attempts@)
                    &&& (retryable ==> {
                        if old(self).addr_idx + 1 < old(self).n_addrs {
                            &&& final(self).phase == Phase::Attempting
                            &&& final(self).profile_idx == old(self).profile_idx
                            &&& final(self).addr_idx == old(self).addr_idx + 1
                            &&& a == (ProbeStep::RunAttempt {
                                profile: old(self).profile_idx,
                                addr: (old(self).addr_idx + 1) as usize,
                            })
                            &&& final(self).attempts@ == old(self).attempts@.push(
                                final(self).cur(),
                            )
                        } else if old(self).profile_idx + 1 < old(self).n_profiles {
                            &&& final(self).phase == Phase::Resolving
                            &&& final(self).profile_idx == old(self).profile_idx + 1
                            &&& a == ProbeStep::NextProfile
                            &&& final(self).attempts@ == old(self).attempts@
                        } else {
                            &&& final(self).phase == Phase::Finished
                            &&& a == ProbeStep::Done
                            &&& final(self).attempts@ == old(self).attempts@
                        }
                    })
                },
            },
    {
        match ev {
            ProbeEvent::Resolved { n_addrs } => {
                self.n_addrs = *n_addrs;
                self.addr_idx = 0;
                self.phase = Phase::Attempting;
                proof {
                    self.attempts@ = self.attempts@.push(self.cur());
                }
                ProbeStep::RunAttempt { profile: self.profile_idx, addr: 0 }
            },
            ProbeEvent::ResolveFailed => {
                self.phase = Phase::Finished;
                ProbeStep::Done
            },
            ProbeEvent::AttemptDone { retryable } => {
                if !*retryable {
                    self.phase = Phase::Finished;
                    ProbeStep::Done
                } else if self.addr_idx + 1 < self.n_addrs {
                    self.addr_idx = self.addr_idx + 1;
                    proof {
                        self.attempts@ = self.attempts@.push(self.cur());
                    }
                    ProbeStep::RunAttempt { profile: self.profile_idx, addr: self.addr_idx }
                } else if self.profile_idx + 1 < self.n_profiles {
                    self.profile_idx = self.profile_idx + 1;
                    self.phase = Phase::Resolving;
                    ProbeStep::NextProfile
                } else {
                    self.phase = Phase::Finished;
                    ProbeStep::Done
                }
            },
        }
    }
}

/// Attempts are handed out in profile-declaration order: the positions a
/// well-formed sequencing has logged are strictly increasing, profile
/// first, address within a profile.
pub proof fn lemma_attempts_in_order(m: Orchestrator)
    requires
        m.wf(),
    ensures
        forall|i: int, j: int|
            0 <= i < j < m.attempts@.len() ==> lex_lt(
                #[trigger] m.attempts@[i],
                #[trigger] m.attempts@[j],
            ),
{
}

} // verus!
