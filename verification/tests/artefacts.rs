use quic_lab::json::{json_to_bytes, Json};
use quic_lab::keylog::{KeylogSink, PerConnKeylog};
use quic_lab::qlog::{header_frame, is_header_frame, PerConnSqlog, QlogMux};
use quic_lab::rotate::RotatingWriter;

fn b(s: &str) -> Vec<u8> {
    s.as_bytes().to_vec()
}

#[test]
fn rotating_writer_rotates_before_overflow() {
    // max 8 bytes, no preamble: three 4-byte records rotate once
    let mut w = RotatingWriter::new(8, Vec::new(), 1);
    let eff1 = w.write(&b("aaaa"));
    assert!(eff1.rotated_to.is_none());
    assert!(eff1.appended);
    assert_eq!(w.size, 4);
    let eff2 = w.write(&b("bbbb"));
    assert!(eff2.rotated_to.is_none());
    assert_eq!(w.size, 8);
    let eff3 = w.write(&b("cccc"));
    assert_eq!(eff3.rotated_to, Some(1));
    assert_eq!(w.size, 4);
    assert_eq!(w.next_index, 2);
}

#[test]
fn rotating_writer_oversized_buffer_still_lands_whole() {
    // a buffer larger than max_bytes rotates to a fresh file and lands in full
    let mut w = RotatingWriter::new(4, b("H"), 1);
    assert_eq!(w.size, 1);
    let eff = w.write(&b("0123456789"));
    assert_eq!(eff.rotated_to, Some(1));
    assert!(eff.appended);
    assert_eq!(w.size, 1 + 10);
}

#[test]
fn rotating_writer_empty_write_is_a_noop() {
    let mut w = RotatingWriter::new(4, Vec::new(), 1);
    let eff = w.write(&Vec::new());
    assert!(eff.rotated_to.is_none());
    assert!(!eff.appended);
    assert_eq!(w.size, 0);
}

#[test]
fn keylog_splits_complete_lines_only() {
    let mut a = PerConnKeylog::new(true).unwrap();
    let lines = a.push_bytes(&b("line one\nline tw"));
    assert_eq!(lines, vec![b("line one\n")]);
    let lines = a.push_bytes(&b("o\npartial"));
    assert_eq!(lines, vec![b("line two\n")]);
    // an unfinished tail is dropped, never forwarded
    let lines = a.finish();
    assert!(lines.is_empty());
    let lines = a.push_bytes(&b("fresh\n"));
    assert_eq!(lines, vec![b("fresh\n")]);
}

#[test]
fn keylog_sink_counts_whole_lines() {
    let mut s = KeylogSink::new(1024);
    let eff = s.append_line(&b("k v\n"));
    assert!(eff.write.appended);
    let eff = s.append_line(&Vec::new());
    assert!(!eff.write.appended);
    assert_eq!(s.writer.size, 4);
}

#[test]
fn qlog_header_is_the_json_seq_preamble() {
    let h = header_frame(1234);
    assert_eq!(h[0], 0x1e);
    assert_eq!(*h.last().unwrap(), 0x0a);
    // the frame body is well-formed JSON naming the JSON-SEQ format
    let v: serde_json::Value = serde_json::from_slice(&h[1..h.len() - 1]).unwrap();
    assert_eq!(v.get("qlog_format").unwrap(), "JSON-SEQ");
    assert_eq!(v.get("qlog_version").unwrap(), "0.4");
    let rt = v
        .get("trace")
        .and_then(|t| t.get("common_fields"))
        .and_then(|c| c.get("reference_time"))
        .unwrap();
    assert_eq!(rt.as_u64(), Some(1234));
    // the multiplexer recognises its own header frame
    assert!(is_header_frame(&h));
}

#[test]
fn qlog_mux_drops_foreign_headers_and_keeps_events() {
    let mut m = QlogMux::new(1 << 20, header_frame(0));
    let start = m.writer.size;
    let hdr = b("\x1e{\"qlog_format\":\"JSON-SEQ\"}\n");
    let eff = m.append_record(&hdr);
    assert!(!eff.write.appended);
    assert_eq!(m.writer.size, start);
    let ev = b("\x1e{\"name\":\"transport:x\",\"time\":1}\n");
    let eff = m.append_record(&ev);
    assert!(eff.write.appended);
    assert_eq!(m.writer.size, start + ev.len() as u64);
}

#[test]
fn qlog_mux_stamps_monotonic_times_per_group() {
    let mut m = QlogMux::new(1 << 20, header_frame(0));
    let gid = b("conn-1");
    let name = b("loglevel:info");
    let s0 = m.writer.size;
    m.append_event(500, &gid, &name, Json::Null);
    let s1 = m.writer.size;
    assert!(s1 > s0);
    // a clock that did not advance still yields a strictly later stamp:
    // 500 ns prints as "0.000500", the bumped 501 ns as "0.000501"
    m.append_event(500, &gid, &name, Json::Null);
    let s2 = m.writer.size;
    assert_eq!(s2 - s1, s1 - s0);
}

#[test]
fn adapter_injects_group_id_and_strips_raw() {
    let mut a = PerConnSqlog::new(&b("cid7"), true).unwrap();
    let frame = b("\x1e{\"data\":{\"raw\":\"aabb\",\"x\":1},\"name\":\"meta:note\",\"time\":1.5}\n");
    let recs = a.push_bytes(&frame);
    assert_eq!(recs.len(), 1);
    let out = &recs[0];
    assert_eq!(out[0], 0x1e);
    assert_eq!(*out.last().unwrap(), 0x0a);
    let v: serde_json::Value = serde_json::from_slice(&out[1..out.len() - 1]).unwrap();
    assert_eq!(v.get("group_id").unwrap(), "cid7");
    assert_eq!(v.get("name").unwrap(), "meta:note");
    // meta events lose data.raw but keep the rest of data
    assert!(v.get("data").unwrap().get("raw").is_none());
    assert_eq!(v.get("data").unwrap().get("x").and_then(|x| x.as_u64()), Some(1));
}

#[test]
fn adapter_keeps_embedded_times_strictly_monotonic() {
    let mut a = PerConnSqlog::new(&b("g"), true).unwrap();
    let f1 = b("\x1e{\"name\":\"meta:a\",\"time\":2.0}\n");
    let f2 = b("\x1e{\"name\":\"meta:b\",\"time\":1.0}\n");
    let r1 = a.push_bytes(&f1);
    let r2 = a.push_bytes(&f2);
    assert_eq!(r1.len(), 1);
    assert_eq!(r2.len(), 1);
    let v1: serde_json::Value = serde_json::from_slice(&r1[0][1..r1[0].len() - 1]).unwrap();
    let v2: serde_json::Value = serde_json::from_slice(&r2[0][1..r2[0].len() - 1]).unwrap();
    assert_eq!(v1.get("time").unwrap().as_f64(), Some(2.0));
    // the second frame's 1 ms is behind, so it is bumped to 2 ms + 1 ns
    assert_eq!(v2.get("time").unwrap().as_f64(), Some(2.000001));
}

#[test]
fn adapter_drops_noisy_events_and_partial_frames() {
    let mut a = PerConnSqlog::new(&b("g"), true).unwrap();
    // dropped entirely by minimisation
    let f = b("\x1e{\"name\":\"quic:stream_data_moved\",\"time\":1}\n");
    assert!(a.push_bytes(&f).is_empty());
    // of the recovery namespace only packet_lost survives
    let f = b("\x1e{\"name\":\"recovery:metrics_updated\",\"time\":2}\n");
    assert!(a.push_bytes(&f).is_empty());
    let f = b("\x1e{\"name\":\"recovery:packet_lost\",\"time\":3}\n");
    assert_eq!(a.push_bytes(&f).len(), 1);
    // a frame without its closing LF yields nothing, even on flush
    let partial = b("\x1e{\"name\":\"meta:x\"");
    assert!(a.push_bytes(&partial).is_empty());
    assert!(a.finish().is_empty());
}

#[test]
fn adapter_forwards_unparsable_frames_unchanged() {
    let mut a = PerConnSqlog::new(&b("g"), true).unwrap();
    let junk = b("\x1enot json at all\n");
    let recs = a.push_bytes(&junk);
    assert_eq!(recs, vec![junk.clone()]);
}

#[test]
fn serializer_output_reparses_with_escapes() {
    let doc = Json::Obj(vec![
        (b("text"), Json::Str(b("a\"b\\c\nd"))),
        (b("n"), Json::Num(b("42"))),
        (b("flag"), Json::Bool(false)),
        (b("nothing"), Json::Null),
        (b("list"), Json::Arr(vec![Json::Num(b("1")), Json::Str(b("x"))])),
    ]);
    let bytes = json_to_bytes(&doc);
    let v: serde_json::Value = serde_json::from_slice(&bytes).unwrap();
    assert_eq!(v.get("text").unwrap(), "a\"b\\c\nd");
    assert_eq!(v.get("n").unwrap().as_u64(), Some(42));
    assert_eq!(v.get("flag").unwrap(), false);
    assert!(v.get("nothing").unwrap().is_null());
    assert_eq!(v.get("list").unwrap().get(0).unwrap().as_u64(), Some(1));
}

#[test]
fn adapter_normalises_unreadable_times() {
    let mut a = PerConnSqlog::new(&b("g"), true).unwrap();
    // a fresh connection's exponent-form time is stamped at zero
    let f0 = b("\x1e{\"name\":\"meta:z\",\"time\":1e-20}\n");
    let r0 = a.push_bytes(&f0);
    assert_eq!(r0.len(), 1);
    let v0: serde_json::Value = serde_json::from_slice(&r0[0][1..r0[0].len() - 1]).unwrap();
    assert_eq!(v0.get("time").unwrap().as_f64(), Some(0.0));
    // after a readable 3 ms, another exponent-form time lands just past it
    let f1 = b("\x1e{\"name\":\"meta:a\",\"time\":3.0}\n");
    let f2 = b("\x1e{\"name\":\"meta:b\",\"time\":1e-20}\n");
    a.push_bytes(&f1);
    let r2 = a.push_bytes(&f2);
    assert_eq!(r2.len(), 1);
    let v2: serde_json::Value = serde_json::from_slice(&r2[0][1..r2[0].len() - 1]).unwrap();
    assert_eq!(v2.get("time").unwrap().as_f64(), Some(3.000001));
}

#[test]
fn adapter_truncates_overlong_fraction_times() {
    let mut a = PerConnSqlog::new(&b("g"), true).unwrap();
    // seven fraction digits are readable now; the frame passes unchanged
    let f1 = b("\x1e{\"name\":\"meta:a\",\"time\":2.0000005}\n");
    let r1 = a.push_bytes(&f1);
    let v1: serde_json::Value = serde_json::from_slice(&r1[0][1..r1[0].len() - 1]).unwrap();
    assert_eq!(v1.get("time").unwrap().as_f64(), Some(2.0000005));
    // its truncated value 2 ms is the connection's last time: 1.5 ms is
    // behind it and is bumped just past
    let f2 = b("\x1e{\"name\":\"meta:b\",\"time\":1.5}\n");
    let r2 = a.push_bytes(&f2);
    let v2: serde_json::Value = serde_json::from_slice(&r2[0][1..r2[0].len() - 1]).unwrap();
    assert_eq!(v2.get("time").unwrap().as_f64(), Some(2.000001));
}
