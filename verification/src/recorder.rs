use vstd::prelude::*;

use crate::bytes::write_bytes;
use crate::json::clone_bytes;
use crate::json::hex_digit;
use crate::json::hex_digit_exec;
use crate::json::json_write;
use crate::json::jv;
use crate::json::lemma_jv_fields_index;
use crate::json::ser;
use crate::json::Json;
use crate::json::JsonV;
use crate::keylog::SinkEffect;
use crate::keylog::KEYLOG_FLUSH_EVERY;
use crate::minimize::lit;
use crate::minimize::litv;
use crate::rotate::RotatingWriter;
use crate::rotate::WriteEffect;

verus! {

broadcast use vstd::std_specs::vec::group_vec_axioms;

/// One step of the 64-bit FNV-1a hash.
pub open spec fn fnv_step(h: u64, b: u8) -> u64 {
    (h ^ (b as u64)).wrapping_mul(0x100000001b3u64)
}

/// The 64-bit FNV-1a hash of a byte string.
pub open spec fn fnv64(s: Seq<u8>) -> u64
    decreases s.len(),
{
    if s.len() == 0 {
        0xcbf29ce484222325u64
    } else {
        fnv_step(fnv64(s.subrange(0, s.len() - 1)), s[s.len() - 1])
    }
}

/// The 64-bit FNV-1a hash of a byte string.
pub fn fnv64_exec(s: &Vec<u8>) -> (r: u64)
    ensures
        r == fnv64(s@),
{
    let n: usize = s.len();
    let mut h: u64 = 0xcbf29ce484222325;
    let mut i: usize = 0;
    while i < n
        invariant
            n == s@.len(),
            0 <= i <= n,
            h == fnv64(s@.subrange(0, i as int)),
        decreases n - i,
    {
        h = (h ^ (s[i] as u64)).wrapping_mul(0x100000001b3);
        proof {
            let k = i as int;
            assert(s@.subrange(0, k + 1).subrange(0, k) =~= s@.subrange(0, k));
            assert(s@.subrange(0, k + 1)[k] == s@[k]);
        }
        i += 1;
    }
    proof {
        assert(s@.subrange(0, n as int) =~= s@);
    }
    h
}

/// The two lower-case hexadecimal digits of a byte.
pub open spec fn hex2(b: u8) -> Seq<u8> {
    seq![hex_digit((b / 16) as u8), hex_digit((b % 16) as u8)]
}

fn hex2_exec(b: u8) -> (r: Vec<u8>)
    ensures
        r@ == hex2(b),
{
    let mut out: Vec<u8> = Vec::new();
    out.push(hex_digit_exec(b / 16));
    out.push(hex_digit_exec(b % 16));
    proof {
        assert(out@ =~= hex2(b));
    }
    out
}

/// The two shard directory components under a base directory: the top two
/// bytes of the key's 64-bit hash, in hexadecimal.
pub open spec fn shard2_spec(base: Seq<u8>, key: Seq<u8>) -> Seq<u8> {
    let h = fnv64(key);
    base + seq![47u8] + hex2((h >> 56) as u8) + seq![47u8] + hex2((h >> 48) as u8)
}

/// The shard directory for a key: `<base>/<xx>/<yy>`.
pub fn shard2(base: &Vec<u8>, key: &Vec<u8>) -> (r: Vec<u8>)
    ensures
        r@ == shard2_spec(base@, key@),
{
    let h = fnv64_exec(key);
    let mut out = clone_bytes(base);
    out.push(47);
    let x1 = hex2_exec((h >> 56) as u8);
    write_bytes(&mut out, &x1);
    out.push(47);
    let x2 = hex2_exec((h >> 48) as u8);
    write_bytes(&mut out, &x2);
    proof {
        assert(out@ =~= shard2_spec(base@, key@));
    }
    out
}

/// The sharded recorder path of a key:
/// `recorder_files/<xx>/<yy>/<key>.json`.
pub open spec fn path_for_key_spec(key: Seq<u8>) -> Seq<u8> {
    shard2_spec(lit("recorder_files"), key) + seq![47u8] + key + lit(".json")
}

/// The sharded recorder path of a key. This is the very path a sharded
/// write for the key lands at, and it is a function of the key alone.
pub fn path_for_key(key: &Vec<u8>) -> (r: Vec<u8>)
    ensures
        r@ == path_for_key_spec(key@),
{
    let base = litv("recorder_files");
    let mut out = shard2(&base, key);
    out.push(47);
    write_bytes(&mut out, key);
    let suffix = litv(".json");
    write_bytes(&mut out, &suffix);
    proof {
        assert(out@ =~= path_for_key_spec(key@));
    }
    out
}

/// Distinct keys land at distinct sharded paths: the shard prefix has a
/// fixed length, so the key region of the path never collides.
pub proof fn lemma_path_for_key_injective(k1: Seq<u8>, k2: Seq<u8>)
    requires
        k1 != k2,
    ensures
        path_for_key_spec(k1) != path_for_key_spec(k2),
{
    let base = lit("recorder_files");
    let pre = base.len() + 7;
    let p1 = path_for_key_spec(k1);
    let p2 = path_for_key_spec(k2);
    assert(p1.len() == pre + k1.len() + lit(".json").len());
    assert(p2.len() == pre + k2.len() + lit(".json").len());
    if k1.len() == k2.len() {
        assert(exists|i: int| 0 <= i < k1.len() && k1[i] != k2[i]) by {
            assert(!(k1 =~= k2));
        }
        let i = choose|i: int| 0 <= i < k1.len() && k1[i] != k2[i];
        assert(p1[pre as int + i] == k1[i]);
        assert(p2[pre as int + i] == k2[i]);
        assert(p1 != p2);
    } else {
        assert(p1.len() != p2.len());
    }
}

/// One sharded write, ready for the file system: the path the record lands
/// at — exactly `path_for_key` of the key — and the serialised record. The
/// caller writes the bytes to a temporary name and renames them into place.
pub fn write_sharded(key: &Vec<u8>, value: &Json) -> (r: (Vec<u8>, Vec<u8>))
    ensures
        r.0@ == path_for_key_spec(key@),
        r.1@ == ser(jv(*value)),
{
    let path = path_for_key(key);
    let bytes = crate::json::json_to_bytes(value);
    (path, bytes)
}

/// One line of the streaming recorder: `{"key": .., "value": ..}` and a
/// newline.
pub open spec fn record_line_spec(key: Seq<u8>, value: JsonV) -> Seq<u8> {
    ser(JsonV::Obj(seq![(lit("key"), JsonV::Str(key)), (lit("value"), value)])) + seq![10u8]
}

/// Serialises one record line for a key.
pub fn record_line(key: &Vec<u8>, value: &Json) -> (r: Vec<u8>)
    ensures
        r@ == record_line_spec(key@, jv(*value)),
{
    let mut fields: Vec<(Vec<u8>, Json)> = Vec::new();
    fields.push((litv("key"), Json::Str(clone_bytes(key))));
    fields.push((litv("value"), crate::json::json_clone(value)));
    let rec = Json::Obj(fields);
    proof {
        let fs = rec->Obj_0@;
        lemma_jv_fields_index(fs);
        assert(fs.len() == 2);
        assert(jv(fs[0].1) == JsonV::Str(key@));
        assert(jv(fs[1].1) == jv(*value));
        assert(crate::json::jv_fields(fs) =~= seq![
            (lit("key"), JsonV::Str(key@)),
            (lit("value"), jv(*value)),
        ]);
    }
    let mut out: Vec<u8> = Vec::new();
    json_write(&rec, &mut out);
    out.push(10);
    proof {
        assert(out@ =~= record_line_spec(key@, jv(*value)));
    }
    out
}

/// The streaming per-connection summary sink: one JSON line per record,
/// appended to a rotating writer.
pub struct RecorderSink {
    pub writer: RotatingWriter,
    pub since_flush: u32,
}

/// Per-connection summary sink; disabled when saving records is off.
pub struct Recorder {
    pub sink: Option<RecorderSink>,
}

impl Recorder {
    pub open spec fn enabled(self) -> bool {
        self.sink is Some
    }

    pub open spec fn wf(self) -> bool {
        match self.sink {
            Some(s) => s.writer.wf() && s.writer.header@.len() == 0 && s.since_flush
                < KEYLOG_FLUSH_EVERY,
            None => true,
        }
    }

    /// Opens the streaming recorder when saving records is enabled.
    pub fn new(max_bytes: u64, save_recorder_files: bool) -> (r: Self)
        ensures
            r.wf(),
            r.enabled() == save_recorder_files,
            save_recorder_files ==> r.sink->Some_0.writer.written@ == Seq::<Seq<u8>>::empty()
                && r.sink->Some_0.writer.max_bytes == max_bytes,
    {
        if save_recorder_files {
            Recorder {
                sink: Some(
                    RecorderSink {
                        writer: RotatingWriter::new(max_bytes, Vec::new(), 1),
                        since_flush: 0,
                    },
                ),
            }
        } else {
            Recorder { sink: None }
        }
    }

    /// Opens the streaming recorder over a caller-prepared writer, as when
    /// resuming an earlier run's stream at its observed size and rotation
    /// index.
    pub fn with_writer(writer: RotatingWriter) -> (r: Self)
        requires
            writer.wf(),
            writer.header@.len() == 0,
        ensures
            r.wf(),
            r.enabled(),
            r.sink->Some_0.writer == writer,
    {
        Recorder { sink: Some(RecorderSink { writer, since_flush: 0 }) }
    }

    /// Appends one record line `{"key": .., "value": ..}` for the key; a
    /// disabled recorder accepts and drops it. The whole line lands in one
    /// file of the rotating stream.
    pub fn write_for_key(&mut self, key: &Vec<u8>, value: &Json) -> (eff: SinkEffect)
        requires
            old(self).wf(),
        ensures
            final(self).wf(),
            final(self).enabled() == old(self).enabled(),
            !old(self).enabled() ==> *final(self) == *old(self) && !eff.write.appended
                && eff.write.rotated_to is None && !eff.flush,
            old(self).enabled() ==> {
                &&& eff.flush == (old(self).sink->Some_0.since_flush + 1 >= KEYLOG_FLUSH_EVERY)
                &&& final(self).sink->Some_0.since_flush == (if eff.flush {
                    0u32
                } else {
                    (old(self).sink->Some_0.since_flush + 1) as u32
                })
            },
            old(self).enabled() && old(self).sink->Some_0.writer.write_fits(
                record_line_spec(key@, jv(*value)).len(),
            ) ==> final(self).sink->Some_0.writer.written@ == old(
                self,
            ).sink->Some_0.writer.written@.push(record_line_spec(key@, jv(*value))),
            old(self).enabled() && !old(self).sink->Some_0.writer.write_fits(
                record_line_spec(key@, jv(*value)).len(),
            ) ==> final(self).sink->Some_0.writer == old(self).sink->Some_0.writer,
    {
        let line = record_line(key, value);
        let sink_opt = &mut self.sink;
        match sink_opt {
            Some(sink) => {
                let write = sink.writer.write(&line);
                let flush: bool;
                if sink.since_flush + 1 >= KEYLOG_FLUSH_EVERY {
                    sink.since_flush = 0;
                    flush = true;
                } else {
                    sink.since_flush = sink.since_flush + 1;
                    flush = false;
                }
                SinkEffect { write, flush }
            },
            None => SinkEffect {
                write: WriteEffect { rotated_to: None, appended: false },
                flush: false,
            },
        }
    }

    /// The active file of the streaming recorder, under the output root:
    /// `recorder_files/quic-lab-recorder.jsonl`.
    pub fn active_path(&self) -> (r: Vec<u8>)
        ensures
            r@ == lit("recorder_files") + seq![47u8] + lit("quic-lab-recorder.jsonl"),
    {
        let mut out = litv("recorder_files");
        out.push(47);
        let base = litv("quic-lab-recorder.jsonl");
        write_bytes(&mut out, &base);
        proof {
            assert(out@ =~= lit("recorder_files") + seq![47u8] + lit("quic-lab-recorder.jsonl"));
        }
        out
    }
}

} // verus!
