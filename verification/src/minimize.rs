use vstd::prelude::*;
use vstd::string::*;

use crate::bytes::bytes_eq;
use crate::bytes::contains_seq;
use crate::bytes::ends_with;
use crate::bytes::ends_with_seq;
use crate::bytes::memmem;
use crate::bytes::starts_with;
use crate::bytes::starts_with_seq;
use crate::json::jv;
use crate::json::jv_fields;
use crate::json::jv_list;
use crate::json::json_clone;
use crate::json::clone_bytes;
use crate::json::keep_keys;
use crate::json::keep_keys_exec;
use crate::json::lemma_jv_fields_index;
use crate::json::lemma_jv_list_index;
use crate::json::obj_get;
use crate::json::obj_lookup;
use crate::json::obj_with;
use crate::json::obj_with_exec;
use crate::json::obj_without;
use crate::json::obj_without_exec;
use crate::json::Json;
use crate::json::JsonV;

verus! {

broadcast use vstd::std_specs::vec::group_vec_axioms;

/// The bytes of an ASCII key or pattern.
pub open spec fn lit(s: &str) -> Seq<u8> {
    s.spec_bytes()
}

/// The bytes of an ASCII key or pattern.
pub fn litv(s: &str) -> (r: Vec<u8>)
    ensures
        r@ == lit(s),
{
    s.as_bytes_vec()
}

/// A two-key list.
fn keys2(a: &str, b: &str) -> (r: Vec<Vec<u8>>)
    ensures
        r.deep_view() == seq![lit(a), lit(b)],
{
    let mut out: Vec<Vec<u8>> = Vec::new();
    out.push(litv(a));
    out.push(litv(b));
    proof {
        assert(out.deep_view() =~~= seq![lit(a), lit(b)]);
    }
    out
}

/// A four-key list.
fn keys4(a: &str, b: &str, c: &str, d: &str) -> (r: Vec<Vec<u8>>)
    ensures
        r.deep_view() == seq![lit(a), lit(b), lit(c), lit(d)],
{
    let mut out: Vec<Vec<u8>> = Vec::new();
    out.push(litv(a));
    out.push(litv(b));
    out.push(litv(c));
    out.push(litv(d));
    proof {
        assert(out.deep_view() =~~= seq![lit(a), lit(b), lit(c), lit(d)]);
    }
    out
}

/// The event's name: the string under `"name"`, or empty.
pub open spec fn ev_name(ev: JsonV) -> Seq<u8> {
    match ev {
        JsonV::Obj(o) => match obj_lookup(o, lit("name")) {
            Some(JsonV::Str(s)) => s,
            _ => Seq::empty(),
        },
        _ => Seq::empty(),
    }
}

/// The event's name: the string under `"name"`, or empty.
pub fn event_name(ev: &Json) -> (r: Vec<u8>)
    ensures
        r@ == ev_name(jv(*ev)),
{
    match ev {
        Json::Obj(o) => {
            let key = litv("name");
            match obj_get(o, &key) {
                Some(j) => match j {
                    Json::Str(s) => clone_bytes(s),
                    _ => Vec::new(),
                },
                None => Vec::new(),
            }
        },
        _ => Vec::new(),
    }
}

/// The event with `data.raw` removed, when `data` is an object.
pub open spec fn strip_data_raw(ev: JsonV) -> JsonV {
    match ev {
        JsonV::Obj(o) => match obj_lookup(o, lit("data")) {
            Some(JsonV::Obj(d)) => JsonV::Obj(
                obj_with(o, lit("data"), JsonV::Obj(obj_without(d, lit("raw")))),
            ),
            _ => ev,
        },
        _ => ev,
    }
}

/// The event with `data.raw` removed, when `data` is an object.
pub fn strip_data_raw_exec(ev: &Json) -> (r: Json)
    ensures
        jv(r) == strip_data_raw(jv(*ev)),
{
    match ev {
        Json::Obj(o) => {
            let kdata = litv("data");
            match obj_get(o, &kdata) {
                Some(j) => match j {
                    Json::Obj(d) => {
                        let kraw = litv("raw");
                        let d2 = obj_without_exec(d, &kraw);
                        Json::Obj(obj_with_exec(o, &kdata, Json::Obj(d2)))
                    },
                    _ => json_clone(ev),
                },
                None => json_clone(ev),
            }
        },
        _ => json_clone(ev),
    }
}

/// A packet frame entry reduced to `frame_type` and `stream_id`.
pub open spec fn min_frame(f: JsonV) -> JsonV {
    match f {
        JsonV::Obj(fo) => JsonV::Obj(keep_keys(fo, seq![lit("frame_type"), lit("stream_id")])),
        _ => f,
    }
}

fn min_frame_exec(f: &Json) -> (r: Json)
    ensures
        jv(r) == min_frame(jv(*f)),
{
    match f {
        Json::Obj(fo) => {
            let ks = keys2("frame_type", "stream_id");
            Json::Obj(keep_keys_exec(fo, &ks))
        },
        _ => json_clone(f),
    }
}

/// One `data` field of a packet event after minimisation: `header` keeps the
/// packet header's identifying keys, `raw` keeps the lengths, each frame
/// entry keeps its type and stream, and everything else stays.
pub open spec fn min_packet_field(f: (Seq<u8>, JsonV)) -> (Seq<u8>, JsonV) {
    if f.0 == lit("header") && f.1 is Obj {
        (
            f.0,
            JsonV::Obj(
                keep_keys(
                    f.1->Obj_0,
                    seq![lit("packet_type"), lit("packet_number"), lit("scil"), lit("dcil")],
                ),
            ),
        )
    } else if f.0 == lit("raw") && f.1 is Obj {
        (f.0, JsonV::Obj(keep_keys(f.1->Obj_0, seq![lit("length"), lit("payload_length")])))
    } else if f.0 == lit("frames") && f.1 is Arr {
        (f.0, JsonV::Arr(Seq::new(f.1->Arr_0.len(), |j: int| min_frame(f.1->Arr_0[j]))))
    } else {
        f
    }
}

/// A packet event (`quic:packet_sent` / `quic:packet_received`) minimised.
pub open spec fn min_packet(ev: JsonV) -> JsonV {
    match ev {
        JsonV::Obj(o) => match obj_lookup(o, lit("data")) {
            Some(JsonV::Obj(d)) => JsonV::Obj(
                obj_with(
                    o,
                    lit("data"),
                    JsonV::Obj(Seq::new(d.len(), |i: int| min_packet_field(d[i]))),
                ),
            ),
            _ => ev,
        },
        _ => ev,
    }
}

fn min_packet_exec(ev: &Json) -> (r: Json)
    ensures
        jv(r) == min_packet(jv(*ev)),
{
    match ev {
        Json::Obj(o) => {
            let kdata = litv("data");
            match obj_get(o, &kdata) {
                Some(j) => match j {
                    Json::Obj(d) => {
                        proof {
                            lemma_jv_fields_index(d@);
                        }
                        let ghost fd = jv_fields(d@);
                        let n: usize = d.len();
                        let mut out: Vec<(Vec<u8>, Json)> = Vec::new();
                        let mut i: usize = 0;
                        while i < n
                            invariant
                                n == d@.len(),
                                0 <= i <= n,
                                fd == jv_fields(d@),
                                fd.len() == n,
                                forall|x: int| 0 <= x < n ==> fd[x] == (d@[x].0@, jv(d@[x].1)),
                                out@.len() == i,
                                forall|x: int|
                                    0 <= x < i ==> (out@[x].0@, jv(out@[x].1))
                                        == min_packet_field(fd[x]),
                            decreases n - i,
                        {
                            let key = &d[i].0;
                            let val = &d[i].1;
                            let kheader = litv("header");
                            let kraw = litv("raw");
                            let kframes = litv("frames");
                            if bytes_eq(key, &kheader) && val.is_obj() {
                                let ks = keys4("packet_type", "packet_number", "scil", "dcil");
                                match val {
                                    Json::Obj(h) => {
                                        out.push(
                                            (clone_bytes(key), Json::Obj(keep_keys_exec(h, &ks))),
                                        );
                                    },
                                    _ => {
                                        proof {
                                            assert(false);
                                        }
                                    },
                                }
                            } else if bytes_eq(key, &kraw) && val.is_obj() {
                                let ks = keys2("length", "payload_length");
                                match val {
                                    Json::Obj(h) => {
                                        out.push(
                                            (clone_bytes(key), Json::Obj(keep_keys_exec(h, &ks))),
                                        );
                                    },
                                    _ => {
                                        proof {
                                            assert(false);
                                        }
                                    },
                                }
                            } else if bytes_eq(key, &kframes) && val.is_arr() {
                                match val {
                                    Json::Arr(a) => {
                                        proof {
                                            lemma_jv_list_index(a@);
                                        }
                                        let ghost fa = jv_list(a@);
                                        let m: usize = a.len();
                                        let mut fr: Vec<Json> = Vec::new();
                                        let mut x: usize = 0;
                                        while x < m
                                            invariant
                                                m == a@.len(),
                                                0 <= x <= m,
                                                fa == jv_list(a@),
                                                fa.len() == m,
                                                forall|y: int| 0 <= y < m ==> fa[y] == jv(a@[y]),
                                                fr@.len() == x,
                                                forall|y: int|
                                                    0 <= y < x ==> jv(fr@[y]) == min_frame(fa[y]),
                                            decreases m - x,
                                        {
                                            fr.push(min_frame_exec(&a[x]));
                                            x += 1;
                                        }
                                        proof {
                                            lemma_jv_list_index(fr@);
                                            assert(jv_list(fr@) =~= Seq::new(
                                                fa.len(),
                                                |y: int| min_frame(fa[y]),
                                            ));
                                        }
                                        out.push((clone_bytes(key), Json::Arr(fr)));
                                    },
                                    _ => {
                                        proof {
                                            assert(false);
                                        }
                                    },
                                }
                            } else {
                                out.push((clone_bytes(key), json_clone(val)));
                            }
                            i += 1;
                        }
                        proof {
                            lemma_jv_fields_index(out@);
                            assert(jv_fields(out@) =~= Seq::new(
                                fd.len(),
                                |x: int| min_packet_field(fd[x]),
                            ));
                        }
                        Json::Obj(obj_with_exec(o, &kdata, Json::Obj(out)))
                    },
                    _ => json_clone(ev),
                },
                None => json_clone(ev),
            }
        },
        _ => json_clone(ev),
    }
}

/// One frame entry under the default pruning: entries naming a frame type or
/// stream keep only those two keys; other objects lose `raw`,
/// `payload_length` and `length_in_bytes`.
pub open spec fn prune_frame(f: JsonV) -> JsonV {
    match f {
        JsonV::Obj(fo) => if obj_lookup(fo, lit("frame_type")) is Some || obj_lookup(
            fo,
            lit("stream_id"),
        ) is Some {
            JsonV::Obj(keep_keys(fo, seq![lit("frame_type"), lit("stream_id")]))
        } else {
            JsonV::Obj(
                obj_without(
                    obj_without(obj_without(fo, lit("raw")), lit("payload_length")),
                    lit("length_in_bytes"),
                ),
            )
        },
        _ => f,
    }
}

fn prune_frame_exec(f: &Json) -> (r: Json)
    ensures
        jv(r) == prune_frame(jv(*f)),
{
    match f {
        Json::Obj(fo) => {
            let kft = litv("frame_type");
            let ksid = litv("stream_id");
            let has_ft = match obj_get(fo, &kft) {
                Some(_) => true,
                None => false,
            };
            let has_sid = match obj_get(fo, &ksid) {
                Some(_) => true,
                None => false,
            };
            if has_ft || has_sid {
                let ks = keys2("frame_type", "stream_id");
                Json::Obj(keep_keys_exec(fo, &ks))
            } else {
                let w1 = obj_without_exec(fo, &litv("raw"));
                let w2 = obj_without_exec(&w1, &litv("payload_length"));
                let w3 = obj_without_exec(&w2, &litv("length_in_bytes"));
                Json::Obj(w3)
            }
        },
        _ => json_clone(f),
    }
}

/// The `data` object under the default pruning: `raw` removed, each frame
/// entry pruned.
pub open spec fn default_prune_data(d: Seq<(Seq<u8>, JsonV)>) -> Seq<(Seq<u8>, JsonV)> {
    let d1 = obj_without(d, lit("raw"));
    match obj_lookup(d1, lit("frames")) {
        Some(JsonV::Arr(a)) => obj_with(
            d1,
            lit("frames"),
            JsonV::Arr(Seq::new(a.len(), |j: int| prune_frame(a[j]))),
        ),
        _ => d1,
    }
}

/// Any other event under the default pruning.
pub open spec fn default_prune(ev: JsonV) -> JsonV {
    match ev {
        JsonV::Obj(o) => match obj_lookup(o, lit("data")) {
            Some(JsonV::Obj(d)) => JsonV::Obj(
                obj_with(o, lit("data"), JsonV::Obj(default_prune_data(d))),
            ),
            _ => ev,
        },
        _ => ev,
    }
}

fn default_prune_exec(ev: &Json) -> (r: Json)
    ensures
        jv(r) == default_prune(jv(*ev)),
{
    match ev {
        Json::Obj(o) => {
            let kdata = litv("data");
            match obj_get(o, &kdata) {
                Some(j) => match j {
                    Json::Obj(d) => {
                        let kraw = litv("raw");
                        let d1 = obj_without_exec(d, &kraw);
                        let kframes = litv("frames");
                        let d2: Vec<(Vec<u8>, Json)>;
                        match obj_get(&d1, &kframes) {
                            Some(fj) => match fj {
                                Json::Arr(a) => {
                                    proof {
                                        lemma_jv_list_index(a@);
                                    }
                                    let ghost fa = jv_list(a@);
                                    let m: usize = a.len();
                                    let mut fr: Vec<Json> = Vec::new();
                                    let mut x: usize = 0;
                                    while x < m
                                        invariant
                                            m == a@.len(),
                                            0 <= x <= m,
                                            fa == jv_list(a@),
                                            fa.len() == m,
                                            forall|y: int| 0 <= y < m ==> fa[y] == jv(a@[y]),
                                            fr@.len() == x,
                                            forall|y: int|
                                                0 <= y < x ==> jv(fr@[y]) == prune_frame(fa[y]),
                                        decreases m - x,
                                    {
                                        fr.push(prune_frame_exec(&a[x]));
                                        x += 1;
                                    }
                                    proof {
                                        lemma_jv_list_index(fr@);
                                        assert(jv_list(fr@) =~= Seq::new(
                                            fa.len(),
                                            |y: int| prune_frame(fa[y]),
                                        ));
                                    }
                                    d2 = obj_with_exec(&d1, &kframes, Json::Arr(fr));
                                },
                                _ => {
                                    d2 = d1;
                                },
                            },
                            None => {
                                d2 = d1;
                            },
                        }
                        Json::Obj(obj_with_exec(o, &kdata, Json::Obj(d2)))
                    },
                    _ => json_clone(ev),
                },
                None => json_clone(ev),
            }
        },
        _ => json_clone(ev),
    }
}

/// Which events are kept in the reduced trace, and in what shape:
/// `meta:*` and `loglevel:*` lose `data.raw`; `*:parameters_set` stays whole;
/// names about errors, closes, path events and connection loss lose
/// `data.raw`; of `recovery:*` only `recovery:packet_lost` stays;
/// `quic:stream_data_moved` is dropped; packet events keep a minimal header,
/// lengths and frame identities; everything else is pruned of raw payloads.
pub open spec fn minimize_spec(ev: JsonV) -> Option<JsonV> {
    let name = ev_name(ev);
    if starts_with_seq(name, lit("meta:")) || starts_with_seq(name, lit("loglevel:")) {
        Some(strip_data_raw(ev))
    } else if ends_with_seq(name, lit(":parameters_set")) {
        Some(ev)
    } else if contains_seq(name, lit("error")) || contains_seq(name, lit("closed"))
        || starts_with_seq(name, lit("quic:path_")) || contains_seq(name, lit("connection_lost")) {
        Some(strip_data_raw(ev))
    } else if starts_with_seq(name, lit("recovery:")) {
        if name == lit("recovery:packet_lost") {
            Some(ev)
        } else {
            None
        }
    } else if name == lit("quic:stream_data_moved") {
        None
    } else if name == lit("quic:packet_sent") || name == lit("quic:packet_received") {
        Some(min_packet(ev))
    } else {
        Some(default_prune(ev))
    }
}

/// Reduces an event to what offline analysis needs, or drops it.
pub fn minimize(ev: &Json) -> (r: Option<Json>)
    ensures
        match r {
            Some(x) => minimize_spec(jv(*ev)) == Some(jv(x)),
            None => minimize_spec(jv(*ev)) is None,
        },
{
    let name = event_name(ev);
    if starts_with(&name, &litv("meta:")) || starts_with(&name, &litv("loglevel:")) {
        Some(strip_data_raw_exec(ev))
    } else if ends_with(&name, &litv(":parameters_set")) {
        Some(json_clone(ev))
    } else if memmem(&name, &litv("error")) || memmem(&name, &litv("closed")) || starts_with(
        &name,
        &litv("quic:path_"),
    ) || memmem(&name, &litv("connection_lost")) {
        Some(strip_data_raw_exec(ev))
    } else if starts_with(&name, &litv("recovery:")) {
        if bytes_eq(&name, &litv("recovery:packet_lost")) {
            Some(json_clone(ev))
        } else {
            None
        }
    } else if bytes_eq(&name, &litv("quic:stream_data_moved")) {
        None
    } else if bytes_eq(&name, &litv("quic:packet_sent")) || bytes_eq(
        &name,
        &litv("quic:packet_received"),
    ) {
        Some(min_packet_exec(ev))
    } else {
        Some(default_prune_exec(ev))
    }
}

} // verus!
