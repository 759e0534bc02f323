use vstd::prelude::*;

use crate::bytes::contains_seq;
use crate::bytes::find_byte;
use crate::bytes::find_byte_from;
use crate::bytes::sub_bytes;
use crate::bytes::lemma_find_byte;
use crate::bytes::memmem;
use crate::bytes::write_bytes;
use crate::decimal::dec_str;
use crate::decimal::dec_str_exec;
use crate::decimal::fmt_ms_nanos;
use crate::decimal::fmt_ms_spec;
use crate::decimal::parse_ms_nanos;
use crate::decimal::parse_ms_spec;
use crate::json::clone_bytes;
use crate::json::json_clone;
use crate::json::json_to_bytes;
use crate::json::jv;
use crate::json::jv_fields;
use crate::json::lemma_jv_fields_index;
use crate::json::lemma_obj_with_lookup;
use crate::json::obj_get;
use crate::json::obj_lookup;
use crate::json::obj_with;
use crate::json::obj_with_exec;
use crate::json::ser;
use crate::json::Json;
use crate::json::JsonV;
use crate::keylog::SinkEffect;
use crate::minimize::lit;
use crate::minimize::litv;
use crate::minimize::minimize;
use crate::minimize::minimize_spec;
use crate::rotate::RotatingWriter;
use crate::rotate::WriteEffect;

verus! {

broadcast use vstd::std_specs::vec::group_vec_axioms;

/// How many records are accepted between flush requests.
pub const QLOG_FLUSH_EVERY: u32 = 2000;

/// What `serde_json` yields for a byte string: the document when the bytes
/// are one well-formed JSON text, nothing otherwise.
pub uninterp spec fn json_parse_of(b: Seq<u8>) -> Option<JsonV>;

#[verifier::external_type_specification]
#[verifier::external_body]
pub struct ExValue(serde_json::Value);

/// Converts serde_json's value tree into the library's document type, one
/// variant arm at a time; numbers keep their shortest decimal form.
#[verifier::external_body]
fn value_to_json(v: serde_json::Value) -> Json {
    match v {
        serde_json::Value::Null => Json::Null,
        serde_json::Value::Bool(b) => Json::Bool(b),
        serde_json::Value::Number(n) => Json::Num(n.to_string().into_bytes()),
        serde_json::Value::String(s) => Json::Str(s.into_bytes()),
        serde_json::Value::Array(a) => Json::Arr(a.into_iter().map(value_to_json).collect()),
        serde_json::Value::Object(m) => Json::Obj(
            m.into_iter().map(|p| (p.0.into_bytes(), value_to_json(p.1))).collect(),
        ),
    }
}

/// Relies on serde_json::from_slice: parses one JSON document from bytes.
/// The result is a function of the bytes alone.
#[verifier::external_body]
fn parse_json_bytes(b: &Vec<u8>) -> (r: Option<Json>)
    ensures
        match r {
            Some(j) => json_parse_of(b@) == Some(jv(j)),
            None => json_parse_of(b@) is None,
        },
{
    match serde_json::from_slice::<serde_json::Value>(b.as_slice()) {
        Ok(v) => Some(value_to_json(v)),
        Err(_) => None,
    }
}

/// Whether a frame is a JSON-SEQ file header: it opens with `RS` and names
/// `"qlog_format"` or `"file_schema"` within its first 64 KiB.
pub open spec fn is_header_frame_spec(f: Seq<u8>) -> bool {
    let prefix = if f.len() <= 65536 {
        f
    } else {
        f.subrange(0, 65536)
    };
    &&& f.len() > 0
    &&& f[0] == 30
    &&& (contains_seq(prefix, seq![34u8] + lit("qlog_format") + seq![34u8]) || contains_seq(
        prefix,
        seq![34u8] + lit("file_schema") + seq![34u8],
    ))
}

/// A quoted key, for searching raw frame bytes.
fn quoted(s: &str) -> (r: Vec<u8>)
    ensures
        r@ == seq![34u8] + lit(s) + seq![34u8],
{
    let mut out: Vec<u8> = Vec::new();
    out.push(34);
    let body = litv(s);
    write_bytes(&mut out, &body);
    out.push(34);
    proof {
        assert(out@ =~= seq![34u8] + lit(s) + seq![34u8]);
    }
    out
}

/// Whether a frame is a JSON-SEQ file header.
pub fn is_header_frame(f: &Vec<u8>) -> (r: bool)
    ensures
        r == is_header_frame_spec(f@),
{
    if f.len() == 0 {
        return false;
    }
    if f[0] != 30 {
        return false;
    }
    let prefix: Vec<u8>;
    if f.len() <= 65536 {
        prefix = clone_bytes(f);
        proof {
            assert(prefix@ == f@);
        }
    } else {
        let mut p: Vec<u8> = Vec::new();
        let mut i: usize = 0;
        while i < 65536
            invariant
                0 <= i <= 65536,
                f@.len() > 65536,
                p@ == f@.subrange(0, i as int),
            decreases 65536 - i,
        {
            p.push(f[i]);
            proof {
                assert(f@.subrange(0, i + 1) =~= f@.subrange(0, i as int) + seq![f@[i as int]]);
                assert(p@ =~= f@.subrange(0, i + 1));
            }
            i += 1;
        }
        prefix = p;
    }
    let k1 = quoted("qlog_format");
    let k2 = quoted("file_schema");
    memmem(&prefix, &k1) || memmem(&prefix, &k2)
}

/// The ghost association of each group with the time of its latest event.
pub open spec fn gid_view(s: Seq<(Vec<u8>, i64)>) -> Seq<(Seq<u8>, i64)> {
    Seq::new(s.len(), |i: int| (s[i].0@, s[i].1))
}

/// The value under the first entry named `k`.
pub open spec fn assoc_lookup(m: Seq<(Seq<u8>, i64)>, k: Seq<u8>) -> Option<i64>
    decreases m.len(),
{
    if m.len() == 0 {
        None
    } else if m[0].0 == k {
        Some(m[0].1)
    } else {
        assoc_lookup(m.subrange(1, m.len() as int), k)
    }
}

/// The association with the first entry named `k` set to `v`, appended when
/// absent.
pub open spec fn assoc_with(m: Seq<(Seq<u8>, i64)>, k: Seq<u8>, v: i64) -> Seq<(Seq<u8>, i64)>
    decreases m.len(),
{
    if m.len() == 0 {
        seq![(k, v)]
    } else if m[0].0 == k {
        seq![(k, v)] + m.subrange(1, m.len() as int)
    } else {
        seq![m[0]] + assoc_with(m.subrange(1, m.len() as int), k, v)
    }
}

pub proof fn lemma_assoc_with_lookup(m: Seq<(Seq<u8>, i64)>, k: Seq<u8>, v: i64, k2: Seq<u8>)
    ensures
        assoc_lookup(assoc_with(m, k, v), k2) == if k2 == k {
            Some(v)
        } else {
            assoc_lookup(m, k2)
        },
    decreases m.len(),
{
    let m2 = assoc_with(m, k, v);
    if m.len() == 0 {
        assert(m2 == seq![(k, v)]);
        assert(m2.subrange(1, 1) =~= Seq::<(Seq<u8>, i64)>::empty());
        if k2 != k {
            assert(assoc_lookup(m2.subrange(1, 1), k2) is None);
        }
    } else if m[0].0 == k {
        assert(m2 == seq![(k, v)] + m.subrange(1, m.len() as int));
        assert(m2[0] == (k, v));
        if k2 != k {
            assert(m2.subrange(1, m2.len() as int) =~= m.subrange(1, m.len() as int));
        }
    } else {
        lemma_assoc_with_lookup(m.subrange(1, m.len() as int), k, v, k2);
        assert(m2[0] == m[0]);
        assert(m2.subrange(1, m2.len() as int) =~= assoc_with(
            m.subrange(1, m.len() as int),
            k,
            v,
        ));
    }
}

proof fn lemma_assoc_skip(m: Seq<(Seq<u8>, i64)>, k: Seq<u8>, i: int)
    requires
        0 <= i <= m.len(),
        forall|x: int| 0 <= x < i ==> m[x].0 != k,
    ensures
        assoc_lookup(m, k) == assoc_lookup(m.subrange(i, m.len() as int), k),
    decreases i,
{
    if i == 0 {
        assert(m.subrange(0, m.len() as int) =~= m);
    } else {
        lemma_assoc_skip(m.subrange(1, m.len() as int), k, i - 1);
        assert(m.subrange(1, m.len() as int).subrange(i - 1, m.len() - 1) =~= m.subrange(
            i,
            m.len() as int,
        ));
    }
}

/// The time stored for group `k`, if any.
fn assoc_get(m: &Vec<(Vec<u8>, i64)>, k: &Vec<u8>) -> (r: Option<i64>)
    ensures
        r == assoc_lookup(gid_view(m@), k@),
{
    let ghost gm = gid_view(m@);
    let n: usize = m.len();
    let mut i: usize = 0;
    while i < n
        invariant
            n == m@.len(),
            0 <= i <= n,
            gm == gid_view(m@),
            forall|x: int| 0 <= x < i ==> gm[x].0 != k@,
        decreases n - i,
    {
        if crate::bytes::bytes_eq(&m[i].0, k) {
            proof {
                lemma_assoc_skip(gm, k@, i as int);
                assert(gm.subrange(i as int, n as int)[0] == gm[i as int]);
            }
            return Some(m[i].1);
        }
        i += 1;
    }
    proof {
        lemma_assoc_skip(gm, k@, n as int);
        assert(gm.subrange(n as int, n as int) =~= Seq::<(Seq<u8>, i64)>::empty());
    }
    None
}

proof fn lemma_assoc_with_found(m: Seq<(Seq<u8>, i64)>, k: Seq<u8>, v: i64, i: int)
    requires
        0 <= i < m.len(),
        forall|x: int| 0 <= x < i ==> m[x].0 != k,
        m[i].0 == k,
    ensures
        assoc_with(m, k, v) == m.subrange(0, i) + seq![(k, v)] + m.subrange(i + 1, m.len() as int),
    decreases i,
{
    if i == 0 {
        assert(assoc_with(m, k, v) =~= m.subrange(0, 0) + seq![(k, v)] + m.subrange(
            1,
            m.len() as int,
        ));
    } else {
        let rest = m.subrange(1, m.len() as int);
        lemma_assoc_with_found(rest, k, v, i - 1);
        assert(rest.subrange(0, i - 1) =~= m.subrange(1, i));
        assert(rest.subrange(i, rest.len() as int) =~= m.subrange(i + 1, m.len() as int));
        assert(assoc_with(m, k, v) =~= m.subrange(0, i) + seq![(k, v)] + m.subrange(
            i + 1,
            m.len() as int,
        ));
    }
}

proof fn lemma_assoc_with_absent(m: Seq<(Seq<u8>, i64)>, k: Seq<u8>, v: i64)
    requires
        forall|x: int| 0 <= x < m.len() ==> m[x].0 != k,
    ensures
        assoc_with(m, k, v) == m + seq![(k, v)],
    decreases m.len(),
{
    if m.len() == 0 {
        assert(assoc_with(m, k, v) =~= m + seq![(k, v)]);
    } else {
        lemma_assoc_with_absent(m.subrange(1, m.len() as int), k, v);
        assert(assoc_with(m, k, v) =~= m + seq![(k, v)]);
    }
}

/// Sets the time stored for group `k`.
fn assoc_set(m: &mut Vec<(Vec<u8>, i64)>, k: &Vec<u8>, v: i64)
    ensures
        gid_view(final(m)@) == assoc_with(gid_view(old(m)@), k@, v),
{
    let ghost gm = gid_view(old(m)@);
    let n: usize = m.len();
    let mut i: usize = 0;
    while i < n
        invariant
            n == m@.len(),
            0 <= i <= n,
            m@ == old(m)@,
            gm == gid_view(m@),
            forall|x: int| 0 <= x < i ==> gm[x].0 != k@,
        decreases n - i,
    {
        if crate::bytes::bytes_eq(&m[i].0, k) {
            m.set(i, (clone_bytes(k), v));
            proof {
                lemma_assoc_with_found(gm, k@, v, i as int);
                assert(gid_view(m@) =~= gm.subrange(0, i as int) + seq![(k@, v)] + gm.subrange(
                    i + 1,
                    n as int,
                ));
            }
            return ;
        }
        i += 1;
    }
    m.push((clone_bytes(k), v));
    proof {
        lemma_assoc_with_absent(gm, k@, v);
        assert(gid_view(m@) =~= gm + seq![(k@, v)]);
    }
}

/// The time an event is stamped with: the clock reading, bumped just past
/// the group's previous time when the clock has not advanced.
pub open spec fn stamped_time(now_ns: i64, prev: Option<i64>) -> i64 {
    match prev {
        Some(p) => if now_ns <= p {
            if p < i64::MAX {
                (p + 1) as i64
            } else {
                p
            }
        } else {
            now_ns
        },
        None => now_ns,
    }
}

/// The event object the multiplexer writes.
pub open spec fn event_jv(t: int, name: Seq<u8>, gid: Seq<u8>, data: JsonV) -> JsonV {
    JsonV::Obj(
        seq![
            (lit("time"), JsonV::Num(fmt_ms_spec(t))),
            (lit("name"), JsonV::Str(name)),
            (lit("group_id"), JsonV::Str(gid)),
            (lit("data"), data),
        ],
    )
}

/// One JSON-SEQ frame around a serialised document.
pub open spec fn frame_of(body: Seq<u8>) -> Seq<u8> {
    seq![30u8] + body + seq![10u8]
}

/// Wraps serialised bytes as a JSON-SEQ frame.
pub fn frame_bytes(body: &Vec<u8>) -> (r: Vec<u8>)
    ensures
        r@ == frame_of(body@),
{
    let mut out: Vec<u8> = Vec::new();
    out.push(30);
    write_bytes(&mut out, body);
    out.push(10);
    proof {
        assert(out@ =~= frame_of(body@));
    }
    out
}

/// What one stamped event yielded: the effect to mirror and the very frame
/// that was written.
pub struct EventOut {
    pub eff: SinkEffect,
    pub frame: Vec<u8>,
}

/// The global JSON-SEQ trace sink, shared by every connection.
///
/// Each output file begins with the one header frame the multiplexer itself
/// writes; incoming per-connection header frames are dropped, and times are
/// kept strictly monotonic for each `group_id`.
pub struct QlogMux {
    pub writer: RotatingWriter,
    pub since_flush: u32,
    pub last_t: Vec<(Vec<u8>, i64)>,
    /// Every event stamped by `append_event`: its group and its time.
    pub events: Ghost<Seq<(Seq<u8>, int)>>,
}

impl QlogMux {
    pub open spec fn wf(self) -> bool {
        &&& self.writer.wf()
        &&& self.since_flush < QLOG_FLUSH_EVERY
        &&& (forall|i: int|
            0 <= i < self.events@.len() ==> match assoc_lookup(
                gid_view(self.last_t@),
                (#[trigger] self.events@[i]).0,
            ) {
                Some(v) => self.events@[i].1 <= v,
                None => false,
            })
        &&& (forall|i: int, j: int|
            0 <= i < j < self.events@.len() && (#[trigger] self.events@[i]).0 == (
            #[trigger] self.events@[j]).0 ==> self.events@[i].1 < self.events@[j].1
                || self.events@[j].1 == i64::MAX)
    }

    /// Opens the multiplexer over a fresh rotating writer whose preamble is
    /// the given header frame.
    pub fn new(max_bytes: u64, header_frame: Vec<u8>) -> (r: Self)
        requires
            header_frame@.len() <= max_bytes,
        ensures
            r.wf(),
            r.writer.max_bytes == max_bytes,
            r.writer.header@ == header_frame@,
            r.writer.written@ == Seq::<Seq<u8>>::empty(),
            r.events@ == Seq::<(Seq<u8>, int)>::empty(),
    {
        QlogMux {
            writer: RotatingWriter::new(max_bytes, header_frame, 1),
            since_flush: 0,
            last_t: Vec::new(),
            events: Ghost(Seq::empty()),
        }
    }

    /// Opens the multiplexer over a caller-prepared writer, as when resuming
    /// an earlier run's trace file at its observed size and rotation index.
    pub fn with_writer(writer: RotatingWriter) -> (r: Self)
        requires
            writer.wf(),
        ensures
            r.wf(),
            r.writer == writer,
            r.events@ == Seq::<(Seq<u8>, int)>::empty(),
    {
        QlogMux { writer, since_flush: 0, last_t: Vec::new(), events: Ghost(Seq::empty()) }
    }

    /// Accepts one already-framed record, dropping JSON-SEQ file headers:
    /// only the multiplexer's own header appears in the output.
    pub fn append_record(&mut self, rec: &Vec<u8>) -> (eff: SinkEffect)
        requires
            old(self).wf(),
        ensures
            final(self).wf(),
            final(self).writer.max_bytes == old(self).writer.max_bytes,
            final(self).writer.header@ == old(self).writer.header@,
            final(self).events@ == old(self).events@,
            final(self).last_t@ == old(self).last_t@,
            is_header_frame_spec(rec@) ==> final(self).writer == old(self).writer && !eff.flush
                && final(self).since_flush == old(self).since_flush,
            !is_header_frame_spec(rec@) ==> {
                &&& eff.flush == (old(self).since_flush + 1 >= QLOG_FLUSH_EVERY)
                &&& final(self).since_flush == (if eff.flush {
                    0u32
                } else {
                    (old(self).since_flush + 1) as u32
                })
            },
            !is_header_frame_spec(rec@) && rec@.len() > 0 && old(self).writer.write_fits(
                rec@.len(),
            ) ==> final(self).writer.written@ == old(self).writer.written@.push(rec@),
            !is_header_frame_spec(rec@) && !(rec@.len() > 0 && old(self).writer.write_fits(
                rec@.len(),
            )) ==> final(self).writer == old(self).writer,
    {
        if is_header_frame(rec) {
            return SinkEffect {
                write: WriteEffect { rotated_to: None, appended: false },
                flush: false,
            };
        }
        let write = self.writer.write(rec);
        let flush = self.bump_flush();
        SinkEffect { write, flush }
    }

    /// Advances the flush counter: a flush is asked for after every
    /// `QLOG_FLUSH_EVERY` accepted records.
    fn bump_flush(&mut self) -> (flush: bool)
        requires
            old(self).since_flush < QLOG_FLUSH_EVERY,
        ensures
            final(self).since_flush < QLOG_FLUSH_EVERY,
            final(self).writer == old(self).writer,
            final(self).last_t@ == old(self).last_t@,
            final(self).events@ == old(self).events@,
            flush == (old(self).since_flush + 1 >= QLOG_FLUSH_EVERY),
            final(self).since_flush == (if flush {
                0u32
            } else {
                (old(self).since_flush + 1) as u32
            }),
    {
        if self.since_flush + 1 >= QLOG_FLUSH_EVERY {
            self.since_flush = 0;
            true
        } else {
            self.since_flush = self.since_flush + 1;
            false
        }
    }

    /// Stamps and writes one event built by the library itself. The stamp is
    /// the clock reading, pushed just past the group's previous stamp when
    /// the clock has not advanced, so each group's times strictly increase.
    pub fn append_event(
        &mut self,
        now_ns: i64,
        group_id: &Vec<u8>,
        name: &Vec<u8>,
        data: Json,
    ) -> (r: EventOut)
        requires
            old(self).wf(),
            now_ns >= 0,
        ensures
            final(self).wf(),
            final(self).writer.max_bytes == old(self).writer.max_bytes,
            final(self).writer.header@ == old(self).writer.header@,
            r.eff.flush == (old(self).since_flush + 1 >= QLOG_FLUSH_EVERY),
            final(self).since_flush == (if r.eff.flush {
                0u32
            } else {
                (old(self).since_flush + 1) as u32
            }),
            ({
                let t = stamped_time(now_ns, assoc_lookup(gid_view(old(self).last_t@), group_id@));
                let body = ser(event_jv(t as int, name@, group_id@, jv(data)));
                &&& r.frame@ == frame_of(body)
                &&& final(self).events@ == old(self).events@.push((group_id@, t as int))
                &&& gid_view(final(self).last_t@) == assoc_with(
                    gid_view(old(self).last_t@),
                    group_id@,
                    t,
                )
                &&& (old(self).writer.write_fits(frame_of(body).len()) ==> final(self)
                    .writer.written@ == old(self).writer.written@.push(frame_of(body)))
            }),
    {
        let prev = assoc_get(&self.last_t, group_id);
        let t: i64 = match prev {
            Some(p) => {
                if now_ns <= p {
                    if p < i64::MAX {
                        p + 1
                    } else {
                        p
                    }
                } else {
                    now_ns
                }
            },
            None => now_ns,
        };
        assoc_set(&mut self.last_t, group_id, t);
        // build {"time": .., "name": .., "group_id": .., "data": ..}
        let mut fields: Vec<(Vec<u8>, Json)> = Vec::new();
        fields.push((litv("time"), Json::Num(fmt_ms_nanos(t))));
        fields.push((litv("name"), Json::Str(clone_bytes(name))));
        fields.push((litv("group_id"), Json::Str(clone_bytes(group_id))));
        fields.push((litv("data"), data));
        let ev = Json::Obj(fields);
        proof {
            let fs = ev->Obj_0@;
            lemma_jv_fields_index(fs);
            assert(fs.len() == 4);
            assert(jv(fs[0].1) == JsonV::Num(fmt_ms_spec(t as int)));
            assert(jv(fs[1].1) == JsonV::Str(name@));
            assert(jv(fs[2].1) == JsonV::Str(group_id@));
            assert(jv_fields(fs) =~= event_jv(t as int, name@, group_id@, jv(data))->Obj_0);
            assert(jv(ev) == event_jv(t as int, name@, group_id@, jv(data)));
        }
        let body = json_to_bytes(&ev);
        let frame = frame_bytes(&body);
        let write = self.writer.write(&frame);
        let flush = self.bump_flush();
        proof {
            let ghost gold = gid_view(old(self).last_t@);
            let ghost pv = assoc_lookup(gold, group_id@);
            self.events@ = old(self).events@.push((group_id@, t as int));
            assert forall|i: int| 0 <= i < self.events@.len() implies match assoc_lookup(
                gid_view(self.last_t@),
                (#[trigger] self.events@[i]).0,
            ) {
                Some(v) => self.events@[i].1 <= v,
                None => false,
            } by {
                lemma_assoc_with_lookup(gold, group_id@, t, self.events@[i].0);
                if i < old(self).events@.len() {
                    assert(old(self).events@[i] == self.events@[i]);
                }
            }
            assert forall|i: int, j: int|
                0 <= i < j < self.events@.len() && (#[trigger] self.events@[i]).0 == (
                #[trigger] self.events@[j]).0 implies self.events@[i].1 < self.events@[j].1
                || self.events@[j].1 == i64::MAX by {
                if j == self.events@.len() - 1 {
                    lemma_assoc_with_lookup(gold, group_id@, t, self.events@[i].0);
                }
            }
        }
        EventOut { eff: SinkEffect { write, flush }, frame }
    }

    /// Writes a log-level note for a group: a `loglevel:info` event whose
    /// data carries the message.
    pub fn info(&mut self, now_ns: i64, group_id: &Vec<u8>, message: &Vec<u8>) -> (r: EventOut)
        requires
            old(self).wf(),
            now_ns >= 0,
        ensures
            final(self).wf(),
            ({
                let t = stamped_time(now_ns, assoc_lookup(gid_view(old(self).last_t@), group_id@));
                let data = JsonV::Obj(seq![(lit("message"), JsonV::Str(message@))]);
                &&& r.frame@ == frame_of(ser(event_jv(t as int, lit("loglevel:info"), group_id@, data)))
                &&& final(self).events@ == old(self).events@.push((group_id@, t as int))
            }),
    {
        let name = litv("loglevel:info");
        let data = message_data(message);
        self.append_event(now_ns, group_id, &name, data)
    }

    /// Writes a log-level error note for a group: a `loglevel:error` event
    /// whose data carries the message.
    pub fn error(&mut self, now_ns: i64, group_id: &Vec<u8>, message: &Vec<u8>) -> (r: EventOut)
        requires
            old(self).wf(),
            now_ns >= 0,
        ensures
            final(self).wf(),
            ({
                let t = stamped_time(now_ns, assoc_lookup(gid_view(old(self).last_t@), group_id@));
                let data = JsonV::Obj(seq![(lit("message"), JsonV::Str(message@))]);
                &&& r.frame@ == frame_of(ser(event_jv(t as int, lit("loglevel:error"), group_id@, data)))
                &&& final(self).events@ == old(self).events@.push((group_id@, t as int))
            }),
    {
        let name = litv("loglevel:error");
        let data = message_data(message);
        self.append_event(now_ns, group_id, &name, data)
    }
}

/// Every qlog output file begins with the multiplexer's own header frame:
/// the active file and each rotated file carry it as their preamble, and
/// `append_record` refuses any further header frame.
pub proof fn lemma_files_begin_with_header(m: QlogMux)
    requires
        m.wf(),
    ensures
        crate::bytes::starts_with_seq(m.writer.active@, m.writer.header@),
        forall|i: int|
            0 <= i < m.writer.files@.len() ==> crate::bytes::starts_with_seq(
                #[trigger] m.writer.files@[i],
                m.writer.header@,
            ),
{
}

/// Within each `group_id`, the stamped event times strictly increase, save
/// at the unreachable top of the clock's range.
pub proof fn lemma_times_strictly_increase(m: QlogMux)
    requires
        m.wf(),
    ensures
        forall|i: int, j: int|
            0 <= i < j < m.events@.len() && (#[trigger] m.events@[i]).0 == (
            #[trigger] m.events@[j]).0 ==> m.events@[i].1 < m.events@[j].1 || m.events@[j].1
                == i64::MAX,
{
}

/// The `{"message": ..}` payload of a log-level note.
fn message_data(message: &Vec<u8>) -> (r: Json)
    ensures
        jv(r) == JsonV::Obj(seq![(lit("message"), JsonV::Str(message@))]),
{
    let mut fields: Vec<(Vec<u8>, Json)> = Vec::new();
    fields.push((litv("message"), Json::Str(clone_bytes(message))));
    let r = Json::Obj(fields);
    proof {
        let fs = r->Obj_0@;
        lemma_jv_fields_index(fs);
        assert(fs.len() == 1);
        assert(fs[0].0@ == lit("message"));
        assert(jv(fs[0].1) == JsonV::Str(message@));
        assert(jv_fields(fs) =~= seq![(lit("message"), JsonV::Str(message@))]);
        assert(jv(r) == JsonV::Obj(seq![(lit("message"), JsonV::Str(message@))]));
    }
    r
}

/// The JSON-SEQ header frame each output file begins with.
pub open spec fn header_frame_spec(epoch_ms: u64) -> Seq<u8> {
    frame_of(ser(header_jv(epoch_ms)))
}

/// The header document: format and version, titles, and the trace's
/// reference time in milliseconds since the Unix epoch.
pub open spec fn header_jv(epoch_ms: u64) -> JsonV {
    JsonV::Obj(
        seq![
            (lit("qlog_version"), JsonV::Str(lit("0.4"))),
            (lit("qlog_format"), JsonV::Str(lit("JSON-SEQ"))),
            (lit("title"), JsonV::Str(lit("quic-lab session"))),
            (lit("description"), JsonV::Str(lit("Aggregated multi-connection log"))),
            (
                lit("trace"),
                JsonV::Obj(
                    seq![
                        (
                            lit("common_fields"),
                            JsonV::Obj(
                                seq![
                                    (lit("time_format"), JsonV::Str(lit("relative"))),
                                    (lit("reference_time"), JsonV::Num(dec_str(epoch_ms as nat))),
                                ],
                            ),
                        ),
                        (
                            lit("vantage_point"),
                            JsonV::Obj(
                                seq![
                                    (lit("name"), JsonV::Str(lit("quic-lab"))),
                                    (lit("type"), JsonV::Str(lit("client"))),
                                ],
                            ),
                        ),
                    ],
                ),
            ),
        ],
    )
}

/// Builds the header frame for a trace whose reference time is `epoch_ms`.
pub fn header_frame(epoch_ms: u64) -> (r: Vec<u8>)
    ensures
        r@ == header_frame_spec(epoch_ms),
{
    let mut common: Vec<(Vec<u8>, Json)> = Vec::new();
    common.push((litv("time_format"), Json::Str(litv("relative"))));
    common.push((litv("reference_time"), Json::Num(dec_str_exec(epoch_ms))));
    let mut vp: Vec<(Vec<u8>, Json)> = Vec::new();
    vp.push((litv("name"), Json::Str(litv("quic-lab"))));
    vp.push((litv("type"), Json::Str(litv("client"))));
    let mut trace: Vec<(Vec<u8>, Json)> = Vec::new();
    trace.push((litv("common_fields"), Json::Obj(common)));
    trace.push((litv("vantage_point"), Json::Obj(vp)));
    let mut top: Vec<(Vec<u8>, Json)> = Vec::new();
    top.push((litv("qlog_version"), Json::Str(litv("0.4"))));
    top.push((litv("qlog_format"), Json::Str(litv("JSON-SEQ"))));
    top.push((litv("title"), Json::Str(litv("quic-lab session"))));
    top.push((litv("description"), Json::Str(litv("Aggregated multi-connection log"))));
    top.push((litv("trace"), Json::Obj(trace)));
    let h = Json::Obj(top);
    proof {
        let hs = header_jv(epoch_ms)->Obj_0;
        let ts = hs[4].1->Obj_0;
        let fs = h->Obj_0@;
        lemma_jv_fields_index(fs);
        assert(fs.len() == 5);
        let tf = fs[4].1->Obj_0@;
        lemma_jv_fields_index(tf);
        assert(tf.len() == 2);
        let cf = tf[0].1->Obj_0@;
        lemma_jv_fields_index(cf);
        let vf = tf[1].1->Obj_0@;
        lemma_jv_fields_index(vf);
        assert(jv_fields(cf) =~= ts[0].1->Obj_0);
        assert(jv(tf[0].1) == ts[0].1);
        assert(jv_fields(vf) =~= ts[1].1->Obj_0);
        assert(jv(tf[1].1) == ts[1].1);
        assert(jv_fields(tf) =~= ts);
        assert(jv(fs[4].1) == hs[4].1);
        assert(jv_fields(fs) =~= hs);
        assert(jv(h) == header_jv(epoch_ms));
    }
    let body = json_to_bytes(&h);
    frame_bytes(&body)
}

/// Whether the global qlog sink was initialised.
pub fn is_enabled(mux: &Option<QlogMux>) -> (r: bool)
    ensures
        r == (mux is Some),
{
    match mux {
        Some(_) => true,
        None => false,
    }
}

/// Opens the qlog sink when saving qlog traces is enabled. `epoch_ms` is the
/// trace's reference time in milliseconds since the Unix epoch.
pub fn init(max_bytes: u64, epoch_ms: u64, enabled: bool) -> (r: Option<QlogMux>)
    ensures
        enabled && header_frame_spec(epoch_ms).len() <= max_bytes ==> (r matches Some(m) && m.wf()
            && m.writer.header@ == header_frame_spec(epoch_ms) && m.writer.written@
            == Seq::<Seq<u8>>::empty()),
        !enabled ==> r is None,
    {
    if !enabled {
        return None;
    }
    let h = header_frame(epoch_ms);
    if h.len() as u64 > max_bytes {
        return None;
    }
    Some(QlogMux::new(max_bytes, h))
}


/// Splits a byte stream into complete `RS`..`LF` frames and the remainder;
/// noise before a frame's opening `RS` is dropped once that `RS` arrives.
pub open spec fn split_frames(s: Seq<u8>) -> (Seq<Seq<u8>>, Seq<u8>)
    decreases s.len(),
{
    match find_byte(s, 30) {
        None => (Seq::empty(), s),
        Some(ri) => {
            proof {
                lemma_find_byte(s, 30);
            }
            let t = s.subrange(ri, s.len() as int);
            match find_byte(t.subrange(1, t.len() as int), 10) {
                None => (Seq::empty(), t),
                Some(li) => {
                    proof {
                        lemma_find_byte(t.subrange(1, t.len() as int), 10);
                    }
                    let frame = t.subrange(0, li + 2);
                    let rec = split_frames(t.subrange(li + 2, t.len() as int));
                    (seq![frame] + rec.0, rec.1)
                },
            }
        },
    }
}

/// Every extracted frame opens with `RS` and closes with `LF`, and the tail
/// holds no complete frame.
pub proof fn lemma_split_frames_complete(s: Seq<u8>)
    ensures
        forall|i: int|
            0 <= i < split_frames(s).0.len() ==> {
                let f = #[trigger] split_frames(s).0[i];
                f.len() >= 2 && f[0] == 30 && f[f.len() - 1] == 10
            },
        split_frames(split_frames(s).1).0 == Seq::<Seq<u8>>::empty(),
    decreases s.len(),
{
    lemma_find_byte(s, 30);
    match find_byte(s, 30) {
        None => {
            assert(split_frames(s).1 == s);
            assert(split_frames(split_frames(s).1).0 =~= Seq::<Seq<u8>>::empty());
        },
        Some(ri) => {
            let t = s.subrange(ri, s.len() as int);
            lemma_find_byte(t.subrange(1, t.len() as int), 10);
            match find_byte(t.subrange(1, t.len() as int), 10) {
                None => {
                    assert(t[0] == 30);
                    assert(t.subrange(0, t.len() as int) =~= t);
                    assert(split_frames(t).0 =~= Seq::<Seq<u8>>::empty());
                },
                Some(li) => {
                    let rest = t.subrange(li + 2, t.len() as int);
                    lemma_split_frames_complete(rest);
                    let f0 = t.subrange(0, li + 2);
                    assert(f0[0] == t[0] && t[0] == 30);
                    assert(f0[f0.len() - 1] == t[li + 1] && t.subrange(1, t.len() as int)[li]
                        == t[li + 1]);
                    assert(split_frames(s).0[0] == f0);
                    assert(forall|x: int|
                        0 <= x < split_frames(rest).0.len() ==> split_frames(s).0[x + 1]
                            == split_frames(rest).0[x]);
                },
            }
        },
    }
}

/// The bumped stamp for a frame-borne time: pushed just past the previous
/// one when it does not exceed it.
pub open spec fn adj_time(t: int, last: Option<i64>) -> int {
    match last {
        Some(p) => if t <= p {
            if p < i64::MAX {
                p + 1
            } else {
                p as int
            }
        } else {
            t
        },
        None => t,
    }
}

/// The event with `group_id` set to the connection's trace id when absent.
pub open spec fn inject_gid(ev: JsonV, gid: Seq<u8>) -> JsonV {
    match ev {
        JsonV::Obj(o) => if obj_lookup(o, lit("group_id")) is None {
            JsonV::Obj(obj_with(o, lit("group_id"), JsonV::Str(gid)))
        } else {
            ev
        },
        _ => ev,
    }
}

fn inject_gid_exec(ev: &Json, gid: &Vec<u8>) -> (r: Json)
    ensures
        jv(r) == inject_gid(jv(*ev), gid@),
{
    match ev {
        Json::Obj(o) => {
            let kgid = litv("group_id");
            match obj_get(o, &kgid) {
                Some(_) => json_clone(ev),
                None => Json::Obj(obj_with_exec(o, &kgid, Json::Str(clone_bytes(gid)))),
            }
        },
        _ => json_clone(ev),
    }
}

/// The stamp a numeric time the crate cannot read is normalised to: just
/// past the connection's previous time, or zero for a fresh connection.
pub open spec fn norm_time(last: Option<i64>) -> i64 {
    match last {
        Some(p) => if p < i64::MAX {
            if p + 1 >= 0 {
                (p + 1) as i64
            } else {
                0i64
            }
        } else {
            p
        },
        None => 0i64,
    }
}

/// The event with its `time` made strictly monotonic for the connection,
/// and the connection's next last-time. A readable time is bumped just past
/// the previous one when it does not exceed it; an unreadable numeric time
/// (exponent notation, or past the readable range) is rewritten to the
/// normalised stamp, so the connection's last-time advances in every case a
/// numeric time is present. A missing or non-numeric time leaves both alone.
pub open spec fn fix_time(ev: JsonV, last: Option<i64>) -> (JsonV, Option<i64>) {
    match ev {
        JsonV::Obj(o) => match obj_lookup(o, lit("time")) {
            Some(JsonV::Num(tb)) => match parse_ms_spec(tb) {
                Some(t) => {
                    let ta = adj_time(t, last);
                    if ta != t {
                        (
                            JsonV::Obj(obj_with(o, lit("time"), JsonV::Num(fmt_ms_spec(ta)))),
                            Some(ta as i64),
                        )
                    } else {
                        (ev, Some(t as i64))
                    }
                },
                None => {
                    let ta = norm_time(last);
                    (
                        JsonV::Obj(obj_with(o, lit("time"), JsonV::Num(fmt_ms_spec(ta as int)))),
                        Some(ta),
                    )
                },
            },
            _ => (ev, last),
        },
        _ => (ev, last),
    }
}

/// Per-connection time monotonicity, for every numeric time: whenever a
/// frame's event carries a numeric `time` — readable or not — the forwarded
/// event carries a time that reads back as the connection's new last-time,
/// and that stamp is strictly past the previous one (save at the clock
/// range's unreachable top).
pub proof fn lemma_fix_time_monotonic(ev: JsonV, last: Option<i64>)
    requires
        ev is Obj,
        obj_lookup(ev->Obj_0, lit("time")) matches Some(tv) && tv is Num,
        last matches Some(p) && 0 <= p < i64::MAX,
    ensures
        ({
            let r = fix_time(ev, last);
            &&& (r.1 matches Some(q) && q > last->Some_0)
            &&& r.0 is Obj
            &&& (obj_lookup(r.0->Obj_0, lit("time")) matches Some(nv) && nv is Num
                && parse_ms_spec(nv->Num_0) == Some(r.1->Some_0 as int))
        }),
{
    let o = ev->Obj_0;
    let tb = obj_lookup(o, lit("time"))->Some_0->Num_0;
    let p = last->Some_0;
    match parse_ms_spec(tb) {
        Some(t) => {
            let ta = adj_time(t, last);
            assert(ta > p);
            if ta != t {
                lemma_obj_with_lookup(o, lit("time"), JsonV::Num(fmt_ms_spec(ta)), lit("time"));
                crate::decimal::lemma_fmt_parse_round_trip(ta);
            }
        },
        None => {
            let ta = norm_time(last);
            assert(ta == p + 1);
            lemma_obj_with_lookup(o, lit("time"), JsonV::Num(fmt_ms_spec(ta as int)), lit("time"));
            crate::decimal::lemma_fmt_parse_round_trip(ta as int);
        },
    }
}

fn fix_time_exec(ev: &Json, last: Option<i64>) -> (r: (Json, Option<i64>))
    ensures
        jv(r.0) == fix_time(jv(*ev), last).0,
        r.1 == fix_time(jv(*ev), last).1,
{
    match ev {
        Json::Obj(o) => {
            let ktime = litv("time");
            match obj_get(o, &ktime) {
                Some(j) => match j {
                    Json::Num(tb) => {
                        match parse_ms_nanos(tb) {
                            Some(t) => {
                                let ta: i64 = match last {
                                    Some(p) => {
                                        if t <= p {
                                            if p < i64::MAX {
                                                p + 1
                                            } else {
                                                p
                                            }
                                        } else {
                                            t
                                        }
                                    },
                                    None => t,
                                };
                                if ta != t {
                                    (
                                        Json::Obj(
                                            obj_with_exec(o, &ktime, Json::Num(fmt_ms_nanos(ta))),
                                        ),
                                        Some(ta),
                                    )
                                } else {
                                    (json_clone(ev), Some(t))
                                }
                            },
                            None => {
                                let ta: i64 = match last {
                                    Some(p) => {
                                        if p < i64::MAX {
                                            if p + 1 >= 0 {
                                                p + 1
                                            } else {
                                                0
                                            }
                                        } else {
                                            p
                                        }
                                    },
                                    None => 0,
                                };
                                (
                                    Json::Obj(
                                        obj_with_exec(o, &ktime, Json::Num(fmt_ms_nanos(ta))),
                                    ),
                                    Some(ta),
                                )
                            },
                        }
                    },
                    _ => (json_clone(ev), last),
                },
                None => (json_clone(ev), last),
            }
        },
        _ => (json_clone(ev), last),
    }
}

/// What one complete frame becomes: the reshaped frame to forward (nothing
/// when minimisation drops the event), and the connection's next last-time.
/// A frame whose payload does not parse is forwarded unchanged.
pub open spec fn process_frame_spec(rec: Seq<u8>, gid: Seq<u8>, last: Option<i64>) -> (
    Option<Seq<u8>>,
    Option<i64>,
) {
    if rec.len() >= 3 && rec[0] == 30 && rec[rec.len() - 1] == 10 {
        match json_parse_of(rec.subrange(1, rec.len() - 1)) {
            Some(v) => {
                let ft = fix_time(inject_gid(v, gid), last);
                match minimize_spec(ft.0) {
                    Some(v3) => (Some(frame_of(ser(v3))), ft.1),
                    None => (None, ft.1),
                }
            },
            None => (Some(rec), last),
        }
    } else {
        (Some(rec), last)
    }
}

/// The records forwarded for a run of complete frames, in order, and the
/// connection's final last-time.
pub open spec fn feed_frames(frames: Seq<Seq<u8>>, gid: Seq<u8>, last: Option<i64>) -> (
    Seq<Seq<u8>>,
    Option<i64>,
)
    decreases frames.len(),
{
    if frames.len() == 0 {
        (Seq::empty(), last)
    } else {
        let pr = process_frame_spec(frames[0], gid, last);
        let rest = feed_frames(frames.subrange(1, frames.len() as int), gid, pr.1);
        (
            match pr.0 {
                Some(b) => seq![b] + rest.0,
                None => rest.0,
            },
            rest.1,
        )
    }
}

/// Per-connection adapter: buffers raw bytes from the QUIC library, splits
/// them into JSON-SEQ frames, injects the connection's `group_id`, keeps the
/// embedded times strictly monotonic, reduces each event, and hands the
/// reshaped records out for the multiplexer.
pub struct PerConnSqlog {
    pub buf: Vec<u8>,
    pub gid: Vec<u8>,
    pub last_t: Option<i64>,
}

impl PerConnSqlog {
    /// A fresh adapter for one connection when the sink is enabled.
    pub fn new(group_id: &Vec<u8>, enabled: bool) -> (r: Option<Self>)
        ensures
            enabled ==> (r matches Some(a) && a.buf@ == Seq::<u8>::empty() && a.gid@ == group_id@
                && a.last_t is None),
            !enabled ==> r is None,
    {
        if enabled {
            Some(PerConnSqlog { buf: Vec::new(), gid: clone_bytes(group_id), last_t: None })
        } else {
            None
        }
    }

    /// Reshapes one complete frame, advancing the connection's last-time.
    fn process_frame(&mut self, rec: Vec<u8>) -> (r: Option<Vec<u8>>)
        ensures
            ({
                let pr = process_frame_spec(rec@, old(self).gid@, old(self).last_t);
                &&& match r {
                    Some(b) => pr.0 == Some(b@),
                    None => pr.0 is None,
                }
                &&& final(self).last_t == pr.1
                &&& final(self).buf@ == old(self).buf@
                &&& final(self).gid@ == old(self).gid@
            }),
    {
        let n: usize = rec.len();
        if n < 3 || rec[0] != 30 || rec[n - 1] != 10 {
            return Some(rec);
        }
        let payload = sub_bytes(&rec, 1, n - 1);
        match parse_json_bytes(&payload) {
            Some(v) => {
                let v1 = inject_gid_exec(&v, &self.gid);
                let ft = fix_time_exec(&v1, self.last_t);
                self.last_t = ft.1;
                match minimize(&ft.0) {
                    Some(v3) => {
                        let body = json_to_bytes(&v3);
                        Some(frame_bytes(&body))
                    },
                    None => None,
                }
            },
            None => Some(rec),
        }
    }

    /// Extracts and reshapes every complete frame in the buffer.
    fn pump(&mut self) -> (recs: Vec<Vec<u8>>)
        ensures
            ({
                let split = split_frames(old(self).buf@);
                let fed = feed_frames(split.0, old(self).gid@, old(self).last_t);
                &&& recs.deep_view() == fed.0
                &&& final(self).last_t == fed.1
                &&& final(self).buf@ == split.1
                &&& final(self).gid@ == old(self).gid@
            }),
    {
        let ghost gid0 = self.gid@;
        let ghost full = feed_frames(
            split_frames(old(self).buf@).0,
            gid0,
            old(self).last_t,
        );
        let ghost split0 = split_frames(old(self).buf@);
        let mut out: Vec<Vec<u8>> = Vec::new();
        loop
            invariant
                self.gid@ == gid0,
                ({
                    let cur = feed_frames(split_frames(self.buf@).0, gid0, self.last_t);
                    &&& full.0 == out.deep_view() + cur.0
                    &&& full.1 == cur.1
                    &&& split0.1 == split_frames(self.buf@).1
                }),
            ensures
                out.deep_view() == full.0,
                self.last_t == full.1,
                self.buf@ == split0.1,
                self.gid@ == gid0,
            decreases self.buf@.len(),
        {
            proof {
                assert(self.buf@.subrange(0, self.buf@.len() as int) =~= self.buf@);
            }
            let rs = find_byte_from(&self.buf, 30, 0);
            match rs {
                None => {
                    proof {
                        assert(split_frames(self.buf@).0 =~= Seq::<Seq<u8>>::empty());
                        assert(feed_frames(Seq::empty(), gid0, self.last_t).0
                            =~= Seq::<Seq<u8>>::empty());
                        assert(out.deep_view() + Seq::<Seq<u8>>::empty() =~= out.deep_view());
                    }
                    break ;
                },
                Some(ri) => {
                    proof {
                        lemma_find_byte(self.buf@, 30);
                    }
                    if ri > 0 {
                        let ghost pre = self.buf@;
                        let mut t = self.buf.split_off(ri);
                        core::mem::swap(&mut self.buf, &mut t);
                        proof {
                            assert(self.buf@ == pre.subrange(ri as int, pre.len() as int));
                            assert(self.buf@[0] == pre[ri as int]);
                            assert(self.buf@[0] == 30);
                            assert(find_byte(self.buf@, 30) == Some(0int));
                            assert(self.buf@.subrange(0, self.buf@.len() as int) =~= self.buf@);
                            assert(split_frames(pre) == split_frames(self.buf@));
                        }
                    }
                    let ghost buf0 = self.buf@;
                    proof {
                        assert(buf0[0] == 30);
                        assert(buf0.subrange(0, buf0.len() as int) =~= buf0);
                    }
                    let lf = find_byte_from(&self.buf, 10, 1);
                    match lf {
                        None => {
                            proof {
                                assert(split_frames(buf0).0 =~= Seq::<Seq<u8>>::empty());
                                assert(split_frames(buf0).1 == buf0);
                                assert(feed_frames(Seq::empty(), gid0, self.last_t).0
                                    =~= Seq::<Seq<u8>>::empty());
                                assert(out.deep_view() + Seq::<Seq<u8>>::empty()
                                    =~= out.deep_view());
                            }
                            break ;
                        },
                        Some(la) => {
                            let ghost li = la - 1;
                            let bl: usize = self.buf.len();
                            proof {
                                assert(la < bl);
                            }
                            let mut rest = self.buf.split_off(la + 1);
                            core::mem::swap(&mut self.buf, &mut rest);
                            let frame = rest;
                            proof {
                                assert(frame@ == buf0.subrange(0, li + 2));
                                assert(self.buf@ == buf0.subrange(li + 2, buf0.len() as int));
                                assert(split_frames(buf0).0 =~= seq![frame@] + split_frames(
                                    self.buf@,
                                ).0);
                                assert(split_frames(buf0).1 == split_frames(self.buf@).1);
                            }
                            let ghost last0 = self.last_t;
                            let ghost preout = out.deep_view();
                            let ghost frames_here = split_frames(buf0).0;
                            let r = self.process_frame(frame);
                            proof {
                                assert(frames_here[0] == frame@);
                                assert(frames_here.subrange(1, frames_here.len() as int)
                                    =~= split_frames(self.buf@).0);
                            }
                            match r {
                                Some(b) => {
                                    out.push(b);
                                    proof {
                                        assert(out.deep_view().len() == preout.len() + 1);
                                        assert(out.deep_view()[preout.len() as int] == b@);
                                        assert(forall|x: int|
                                            0 <= x < preout.len() ==> out.deep_view()[x]
                                                == preout[x]);
                                        assert(out.deep_view() =~= preout + seq![b@]);
                                        let cur = feed_frames(
                                            split_frames(self.buf@).0,
                                            gid0,
                                            self.last_t,
                                        );
                                        assert(feed_frames(frames_here, gid0, last0).0 =~= seq![b@]
                                            + cur.0);
                                        assert(full.0 =~= out.deep_view() + cur.0);
                                    }
                                },
                                None => {
                                },
                            }
                        },
                    }
                },
            }
        }
        out
    }

    /// Accepts raw bytes and hands out the reshaped records for every frame
    /// now complete; the unfinished tail stays buffered.
    pub fn push_bytes(&mut self, data: &Vec<u8>) -> (recs: Vec<Vec<u8>>)
        ensures
            ({
                let split = split_frames(old(self).buf@ + data@);
                let fed = feed_frames(split.0, old(self).gid@, old(self).last_t);
                &&& recs.deep_view() == fed.0
                &&& final(self).last_t == fed.1
                &&& final(self).buf@ == split.1
                &&& final(self).gid@ == old(self).gid@
            }),
    {
        write_bytes(&mut self.buf, data);
        self.pump()
    }

    /// Hands out the reshaped records for the complete frames still buffered
    /// and drops the unfinished tail, as on drop of the adapter: a partial
    /// frame is never forwarded.
    pub fn finish(&mut self) -> (recs: Vec<Vec<u8>>)
        ensures
            ({
                let fed = feed_frames(
                    split_frames(old(self).buf@).0,
                    old(self).gid@,
                    old(self).last_t,
                );
                &&& recs.deep_view() == fed.0
                &&& final(self).last_t == fed.1
                &&& final(self).buf@ == Seq::<u8>::empty()
                &&& final(self).gid@ == old(self).gid@
            }),
    {
        let recs = self.pump();
        self.buf = Vec::new();
        recs
    }
}

} // verus!
