use vstd::prelude::*;

use crate::bytes::bytes_eq;
use crate::bytes::write_bytes;

verus! {

broadcast use vstd::std_specs::vec::group_vec_axioms, vstd::seq::axiom_seq_index_decreases,
    vstd::seq::axiom_seq_subrange_decreases;

/// Ghost model of a JSON document. Strings and numbers carry raw bytes:
/// a `Str` holds the unescaped UTF-8 text, a `Num` holds the literal digits.
#[verifier::ext_equal]
pub enum JsonV {
    Null,
    Bool(bool),
    Num(Seq<u8>),
    Str(Seq<u8>),
    Arr(Seq<JsonV>),
    Obj(Seq<(Seq<u8>, JsonV)>),
}

/// A JSON document. `Str` and `Num` hold raw (unescaped) UTF-8 bytes.
pub enum Json {
    Null,
    Bool(bool),
    Num(Vec<u8>),
    Str(Vec<u8>),
    Arr(Vec<Json>),
    Obj(Vec<(Vec<u8>, Json)>),
}

/// The ghost value an executable document stands for.
pub open spec fn jv(j: Json) -> JsonV
    decreases j, 1int,
{
    match j {
        Json::Null => JsonV::Null,
        Json::Bool(b) => JsonV::Bool(b),
        Json::Num(n) => JsonV::Num(n@),
        Json::Str(s) => JsonV::Str(s@),
        Json::Arr(v) => {
            proof {
                assert(decreases_to!(j => v));
                assert(decreases_to!(v => v@));
            }
            JsonV::Arr(jv_list(v@))
        },
        Json::Obj(v) => {
            proof {
                assert(decreases_to!(j => v));
                assert(decreases_to!(v => v@));
            }
            JsonV::Obj(jv_fields(v@))
        },
    }
}

/// Element-wise ghost model of a sequence of documents.
pub open spec fn jv_list(s: Seq<Json>) -> Seq<JsonV>
    decreases s, 0int,
{
    if s.len() == 0 {
        Seq::empty()
    } else {
        proof {
            assert(decreases_to!(s => s[0]));
            assert(decreases_to!(s => s.subrange(1, s.len() as int)));
        }
        seq![jv(s[0])] + jv_list(s.subrange(1, s.len() as int))
    }
}

/// Element-wise ghost model of the fields of an object.
pub open spec fn jv_fields(s: Seq<(Vec<u8>, Json)>) -> Seq<(Seq<u8>, JsonV)>
    decreases s, 0int,
{
    if s.len() == 0 {
        Seq::empty()
    } else {
        proof {
            assert(decreases_to!(s => s[0]));
            assert(decreases_to!(s => s.subrange(1, s.len() as int)));
        }
        seq![(s[0].0@, jv(s[0].1))] + jv_fields(s.subrange(1, s.len() as int))
    }
}

pub proof fn lemma_jv_list_index(s: Seq<Json>)
    ensures
        jv_list(s).len() == s.len(),
        forall|i: int| 0 <= i < s.len() ==> jv_list(s)[i] == jv(s[i]),
    decreases s.len(),
{
    if s.len() > 0 {
        lemma_jv_list_index(s.subrange(1, s.len() as int));
    }
}

pub proof fn lemma_jv_fields_index(s: Seq<(Vec<u8>, Json)>)
    ensures
        jv_fields(s).len() == s.len(),
        forall|i: int|
            0 <= i < s.len() ==> jv_fields(s)[i] == (s[i].0@, jv(s[i].1)),
    decreases s.len(),
{
    if s.len() > 0 {
        lemma_jv_fields_index(s.subrange(1, s.len() as int));
    }
}

/// How one byte of a string is escaped in the serialised output.
pub open spec fn esc_byte(b: u8) -> Seq<u8> {
    if b == 34 || b == 92 {
        seq![92u8, b]
    } else if b < 32 {
        seq![92u8, 117u8, 48u8, 48u8, hex_digit((b / 16) as u8), hex_digit((b % 16) as u8)]
    } else {
        seq![b]
    }
}

/// Lower-case hexadecimal digit for a value below 16.
pub open spec fn hex_digit(n: u8) -> u8 {
    if n < 10 {
        (48 + n) as u8
    } else {
        (87 + n) as u8
    }
}

/// Escaped form of a whole string body.
pub open spec fn esc(s: Seq<u8>) -> Seq<u8>
    decreases s.len(),
{
    if s.len() == 0 {
        Seq::empty()
    } else {
        esc_byte(s[0]) + esc(s.subrange(1, s.len() as int))
    }
}

pub proof fn lemma_esc_append(s1: Seq<u8>, s2: Seq<u8>)
    ensures
        esc(s1 + s2) == esc(s1) + esc(s2),
    decreases s1.len(),
{
    if s1.len() == 0 {
        assert(s1 + s2 =~= s2);
        assert(esc(s1) + esc(s2) =~= esc(s2));
    } else {
        assert((s1 + s2).subrange(1, (s1 + s2).len() as int) =~= s1.subrange(
            1,
            s1.len() as int,
        ) + s2);
        lemma_esc_append(s1.subrange(1, s1.len() as int), s2);
        assert(esc(s1 + s2) =~= esc(s1) + esc(s2));
    }
}

/// Serialised bytes of a document.
pub open spec fn ser(v: JsonV) -> Seq<u8>
    decreases v, 1int,
{
    match v {
        JsonV::Null => seq![110u8, 117u8, 108u8, 108u8],
        JsonV::Bool(b) => if b {
            seq![116u8, 114u8, 117u8, 101u8]
        } else {
            seq![102u8, 97u8, 108u8, 115u8, 101u8]
        },
        JsonV::Num(n) => n,
        JsonV::Str(s) => seq![34u8] + esc(s) + seq![34u8],
        JsonV::Arr(a) => {
            proof {
                assert(decreases_to!(v => a));
            }
            seq![91u8] + ser_list(a) + seq![93u8]
        },
        JsonV::Obj(o) => {
            proof {
                assert(decreases_to!(v => o));
            }
            seq![123u8] + ser_fields(o) + seq![125u8]
        },
    }
}

/// Serialised elements of an array: the head, then each remaining element
/// preceded by a comma.
pub open spec fn ser_list(a: Seq<JsonV>) -> Seq<u8>
    decreases a, 0int,
{
    if a.len() == 0 {
        Seq::empty()
    } else {
        proof {
            assert(decreases_to!(a => a[0]));
            assert(decreases_to!(a => a.subrange(1, a.len() as int)));
        }
        ser(a[0]) + ser_list_rest(a.subrange(1, a.len() as int))
    }
}

/// Serialised non-first elements of an array, each preceded by a comma.
pub open spec fn ser_list_rest(a: Seq<JsonV>) -> Seq<u8>
    decreases a, 0int,
{
    if a.len() == 0 {
        Seq::empty()
    } else {
        proof {
            assert(decreases_to!(a => a[0]));
            assert(decreases_to!(a => a.subrange(1, a.len() as int)));
        }
        seq![44u8] + ser(a[0]) + ser_list_rest(a.subrange(1, a.len() as int))
    }
}

/// One serialised object field: quoted escaped key, colon, value.
pub open spec fn ser_field(f: (Seq<u8>, JsonV)) -> Seq<u8>
    decreases f, 1int,
{
    proof {
        assert(decreases_to!(f => f.1));
    }
    seq![34u8] + esc(f.0) + seq![34u8, 58u8] + ser(f.1)
}

/// Serialised fields of an object: the head, then each remaining field
/// preceded by a comma.
pub open spec fn ser_fields(o: Seq<(Seq<u8>, JsonV)>) -> Seq<u8>
    decreases o, 0int,
{
    if o.len() == 0 {
        Seq::empty()
    } else {
        proof {
            assert(decreases_to!(o => o[0]));
            assert(decreases_to!(o => o.subrange(1, o.len() as int)));
        }
        ser_field(o[0]) + ser_fields_rest(o.subrange(1, o.len() as int))
    }
}

/// Serialised non-first fields of an object, each preceded by a comma.
pub open spec fn ser_fields_rest(o: Seq<(Seq<u8>, JsonV)>) -> Seq<u8>
    decreases o, 0int,
{
    if o.len() == 0 {
        Seq::empty()
    } else {
        proof {
            assert(decreases_to!(o => o[0]));
            assert(decreases_to!(o => o.subrange(1, o.len() as int)));
        }
        seq![44u8] + ser_field(o[0]) + ser_fields_rest(o.subrange(1, o.len() as int))
    }
}

pub proof fn lemma_ser_list_rest_append(s1: Seq<JsonV>, s2: Seq<JsonV>)
    ensures
        ser_list_rest(s1 + s2) == ser_list_rest(s1) + ser_list_rest(s2),
    decreases s1.len(),
{
    if s1.len() == 0 {
        assert(s1 + s2 =~= s2);
        assert(ser_list_rest(s1) + ser_list_rest(s2) =~= ser_list_rest(s2));
    } else {
        assert((s1 + s2).subrange(1, (s1 + s2).len() as int) =~= s1.subrange(
            1,
            s1.len() as int,
        ) + s2);
        lemma_ser_list_rest_append(s1.subrange(1, s1.len() as int), s2);
        assert(ser_list_rest(s1 + s2) =~= ser_list_rest(s1) + ser_list_rest(s2));
    }
}

pub proof fn lemma_ser_fields_rest_append(s1: Seq<(Seq<u8>, JsonV)>, s2: Seq<(Seq<u8>, JsonV)>)
    ensures
        ser_fields_rest(s1 + s2) == ser_fields_rest(s1) + ser_fields_rest(s2),
    decreases s1.len(),
{
    if s1.len() == 0 {
        assert(s1 + s2 =~= s2);
        assert(ser_fields_rest(s1) + ser_fields_rest(s2) =~= ser_fields_rest(s2));
    } else {
        assert((s1 + s2).subrange(1, (s1 + s2).len() as int) =~= s1.subrange(
            1,
            s1.len() as int,
        ) + s2);
        lemma_ser_fields_rest_append(s1.subrange(1, s1.len() as int), s2);
        assert(ser_fields_rest(s1 + s2) =~= ser_fields_rest(s1) + ser_fields_rest(s2));
    }
}

/// Lower-case hexadecimal digit for a value below 16.
pub fn hex_digit_exec(n: u8) -> (r: u8)
    requires
        n < 16,
    ensures
        r == hex_digit(n),
{
    if n < 10 {
        48 + n
    } else {
        87 + n
    }
}

/// Appends the escaped form of the string body `s` to `out`.
fn write_escaped(out: &mut Vec<u8>, s: &Vec<u8>)
    ensures
        final(out)@ == old(out)@ + esc(s@),
{
    let n: usize = s.len();
    let mut i: usize = 0;
    while i < n
        invariant
            n == s@.len(),
            0 <= i <= n,
            out@ == old(out)@ + esc(s@.subrange(0, i as int)),
        decreases n - i,
    {
        let b = s[i];
        if b == 34 || b == 92 {
            out.push(92);
            out.push(b);
        } else if b < 32 {
            out.push(92);
            out.push(117);
            out.push(48);
            out.push(48);
            out.push(hex_digit_exec(b / 16));
            out.push(hex_digit_exec(b % 16));
        } else {
            out.push(b);
        }
        proof {
            assert(s@.subrange(0, i + 1) =~= s@.subrange(0, i as int) + seq![s@[i as int]]);
            lemma_esc_append(s@.subrange(0, i as int), seq![s@[i as int]]);
            assert(seq![s@[i as int]].subrange(1, 1) =~= Seq::<u8>::empty());
            assert(esc(seq![s@[i as int]].subrange(1, 1)) == Seq::<u8>::empty());
            assert(esc(seq![s@[i as int]]) =~= esc_byte(s@[i as int]));
            assert(out@ =~= old(out)@ + esc(s@.subrange(0, i + 1)));
        }
        i += 1;
    }
    proof {
        assert(s@.subrange(0, n as int) =~= s@);
    }
}

/// Appends the serialised form of `j` to `out`.
pub fn json_write(j: &Json, out: &mut Vec<u8>)
    ensures
        final(out)@ == old(out)@ + ser(jv(*j)),
    decreases *j,
{
    match j {
        Json::Null => {
            out.push(110);
            out.push(117);
            out.push(108);
            out.push(108);
            proof {
                assert(out@ =~= old(out)@ + ser(jv(*j)));
            }
        },
        Json::Bool(b) => {
            if *b {
                out.push(116);
                out.push(114);
                out.push(117);
                out.push(101);
            } else {
                out.push(102);
                out.push(97);
                out.push(108);
                out.push(115);
                out.push(101);
            }
            proof {
                assert(out@ =~= old(out)@ + ser(jv(*j)));
            }
        },
        Json::Num(nb) => {
            write_bytes(out, nb);
        },
        Json::Str(s) => {
            out.push(34);
            write_escaped(out, s);
            out.push(34);
            proof {
                assert(out@ =~= old(out)@ + ser(jv(*j)));
            }
        },
        Json::Arr(v) => {
            proof {
                lemma_jv_list_index(v@);
            }
            let ghost a = jv_list(v@);
            let ghost pre = out@;
            out.push(91);
            let n: usize = v.len();
            let mut i: usize = 0;
            while i < n
                invariant
                    n == v@.len(),
                    0 <= i <= n,
                    a == jv_list(v@),
                    a.len() == n,
                    forall|k: int| 0 <= k < n ==> a[k] == jv(v@[k]),
                    i == 0 ==> out@ == pre + seq![91u8],
                    i > 0 ==> out@ == pre + seq![91u8] + ser(a[0]) + ser_list_rest(
                        a.subrange(1, i as int),
                    ),
                    decreases_to!(*j => v@),
                decreases n - i,
            {
                proof {
                    assert(decreases_to!(v@ => v@[i as int]));
                }
                if i == 0 {
                    json_write(&v[i], out);
                    proof {
                        assert(a.subrange(1, 1) =~= Seq::<JsonV>::empty());
                        assert(out@ =~= pre + seq![91u8] + ser(a[0]) + ser_list_rest(
                            a.subrange(1, 1),
                        ));
                    }
                } else {
                    out.push(44);
                    json_write(&v[i], out);
                    proof {
                        lemma_ser_list_rest_append(
                            a.subrange(1, i as int),
                            a.subrange(i as int, i + 1),
                        );
                        assert(a.subrange(i as int, i + 1) =~= seq![a[i as int]]);
                        assert(seq![a[i as int]].subrange(1, 1) =~= Seq::<JsonV>::empty());
                        assert(ser_list_rest(seq![a[i as int]].subrange(1, 1))
                            == Seq::<u8>::empty());
                        assert(ser_list_rest(seq![a[i as int]]) =~= seq![44u8] + ser(
                            a[i as int],
                        ));
                        assert(a.subrange(1, i + 1) =~= a.subrange(1, i as int) + a.subrange(
                            i as int,
                            i + 1,
                        ));
                        assert(out@ =~= pre + seq![91u8] + ser(a[0]) + ser_list_rest(
                            a.subrange(1, i + 1),
                        ));
                    }
                }
                i += 1;
            }
            out.push(93);
            proof {
                if n == 0 {
                    assert(out@ =~= old(out)@ + ser(jv(*j)));
                } else {
                    assert(a.subrange(1, n as int) =~= a.subrange(1, a.len() as int));
                    assert(ser_list(a) == ser(a[0]) + ser_list_rest(a.subrange(1, a.len() as int)));
                    assert(out@ =~= old(out)@ + ser(jv(*j)));
                }
            }
        },
        Json::Obj(o) => {
            proof {
                lemma_jv_fields_index(o@);
            }
            let ghost a = jv_fields(o@);
            let ghost pre = out@;
            out.push(123);
            let n: usize = o.len();
            let mut i: usize = 0;
            while i < n
                invariant
                    n == o@.len(),
                    0 <= i <= n,
                    a == jv_fields(o@),
                    a.len() == n,
                    forall|k: int| 0 <= k < n ==> a[k] == (o@[k].0@, jv(o@[k].1)),
                    i == 0 ==> out@ == pre + seq![123u8],
                    i > 0 ==> out@ == pre + seq![123u8] + ser_field(a[0]) + ser_fields_rest(
                        a.subrange(1, i as int),
                    ),
                    decreases_to!(*j => o@),
                decreases n - i,
            {
                proof {
                    assert(decreases_to!(o@ => o@[i as int]));
                    assert(decreases_to!(o@[i as int] => o@[i as int].1));
                }
                if i > 0 {
                    out.push(44);
                }
                let ghost mid = out@;
                out.push(34);
                write_escaped(out, &o[i].0);
                out.push(34);
                out.push(58);
                json_write(&o[i].1, out);
                proof {
                    assert(out@ =~= mid + ser_field(a[i as int]));
                    if i == 0 {
                        assert(a.subrange(1, 1) =~= Seq::<(Seq<u8>, JsonV)>::empty());
                        assert(out@ =~= pre + seq![123u8] + ser_field(a[0]) + ser_fields_rest(
                            a.subrange(1, 1),
                        ));
                    } else {
                        lemma_ser_fields_rest_append(
                            a.subrange(1, i as int),
                            a.subrange(i as int, i + 1),
                        );
                        assert(a.subrange(i as int, i + 1) =~= seq![a[i as int]]);
                        assert(seq![a[i as int]].subrange(1, 1) =~= Seq::<(Seq<u8>, JsonV)>::empty());
                        assert(ser_fields_rest(seq![a[i as int]].subrange(1, 1))
                            == Seq::<u8>::empty());
                        assert(ser_fields_rest(seq![a[i as int]]) =~= seq![44u8] + ser_field(
                            a[i as int],
                        ));
                        assert(a.subrange(1, i + 1) =~= a.subrange(1, i as int) + a.subrange(
                            i as int,
                            i + 1,
                        ));
                        assert(out@ =~= pre + seq![123u8] + ser_field(a[0]) + ser_fields_rest(
                            a.subrange(1, i + 1),
                        ));
                    }
                }
                i += 1;
            }
            out.push(125);
            proof {
                if n == 0 {
                    assert(out@ =~= old(out)@ + ser(jv(*j)));
                } else {
                    assert(a.subrange(1, n as int) =~= a.subrange(1, a.len() as int));
                    assert(ser_fields(a) == ser_field(a[0]) + ser_fields_rest(
                        a.subrange(1, a.len() as int),
                    ));
                    assert(out@ =~= old(out)@ + ser(jv(*j)));
                }
            }
        },
    }
}

/// Copies a byte string.
pub fn clone_bytes(b: &Vec<u8>) -> (r: Vec<u8>)
    ensures
        r@ == b@,
{
    let mut out: Vec<u8> = Vec::new();
    write_bytes(&mut out, b);
    proof {
        assert(out@ =~= b@);
    }
    out
}

/// Copies a document.
pub fn json_clone(j: &Json) -> (r: Json)
    ensures
        jv(r) == jv(*j),
    decreases *j,
{
    match j {
        Json::Null => Json::Null,
        Json::Bool(b) => Json::Bool(*b),
        Json::Num(n) => Json::Num(clone_bytes(n)),
        Json::Str(s) => Json::Str(clone_bytes(s)),
        Json::Arr(v) => {
            let n: usize = v.len();
            let mut out: Vec<Json> = Vec::new();
            let mut i: usize = 0;
            while i < n
                invariant
                    n == v@.len(),
                    0 <= i <= n,
                    out@.len() == i,
                    forall|k: int| 0 <= k < i ==> jv(out@[k]) == jv(v@[k]),
                    decreases_to!(*j => v@),
                decreases n - i,
            {
                proof {
                    assert(decreases_to!(v@ => v@[i as int]));
                }
                out.push(json_clone(&v[i]));
                i += 1;
            }
            proof {
                lemma_jv_list_index(out@);
                lemma_jv_list_index(v@);
                assert(jv_list(out@) =~= jv_list(v@));
            }
            Json::Arr(out)
        },
        Json::Obj(o) => {
            let n: usize = o.len();
            let mut out: Vec<(Vec<u8>, Json)> = Vec::new();
            let mut i: usize = 0;
            while i < n
                invariant
                    n == o@.len(),
                    0 <= i <= n,
                    out@.len() == i,
                    forall|k: int|
                        0 <= k < i ==> out@[k].0@ == o@[k].0@ && jv(out@[k].1) == jv(o@[k].1),
                    decreases_to!(*j => o@),
                decreases n - i,
            {
                proof {
                    assert(decreases_to!(o@ => o@[i as int]));
                    assert(decreases_to!(o@[i as int] => o@[i as int].1));
                }
                out.push((clone_bytes(&o[i].0), json_clone(&o[i].1)));
                i += 1;
            }
            proof {
                lemma_jv_fields_index(out@);
                lemma_jv_fields_index(o@);
                assert(jv_fields(out@) =~= jv_fields(o@));
            }
            Json::Obj(out)
        },
    }
}

/// The value of the first field named `k`, if any.
pub open spec fn obj_lookup(o: Seq<(Seq<u8>, JsonV)>, k: Seq<u8>) -> Option<JsonV>
    decreases o.len(),
{
    if o.len() == 0 {
        None
    } else if o[0].0 == k {
        Some(o[0].1)
    } else {
        obj_lookup(o.subrange(1, o.len() as int), k)
    }
}

/// Whether the object has a field named `k`.
pub open spec fn obj_has(o: Seq<(Seq<u8>, JsonV)>, k: Seq<u8>) -> bool {
    obj_lookup(o, k) is Some
}

/// The object without any field named `k`, other fields kept in order.
pub open spec fn obj_without(o: Seq<(Seq<u8>, JsonV)>, k: Seq<u8>) -> Seq<(Seq<u8>, JsonV)>
    decreases o.len(),
{
    if o.len() == 0 {
        Seq::empty()
    } else if o[0].0 == k {
        obj_without(o.subrange(1, o.len() as int), k)
    } else {
        seq![o[0]] + obj_without(o.subrange(1, o.len() as int), k)
    }
}

/// The fields named in `ks`, in the order of `ks`, keeping only the names
/// the object has; each value is the first value under that name.
pub open spec fn keep_keys(o: Seq<(Seq<u8>, JsonV)>, ks: Seq<Seq<u8>>) -> Seq<(Seq<u8>, JsonV)>
    decreases ks.len(),
{
    if ks.len() == 0 {
        Seq::empty()
    } else {
        (match obj_lookup(o, ks[0]) {
            Some(v) => seq![(ks[0], v)],
            None => Seq::empty(),
        }) + keep_keys(o, ks.subrange(1, ks.len() as int))
    }
}

/// The object with the first field named `k` replaced by value `v`, or with
/// `(k, v)` appended when no field is named `k`.
pub open spec fn obj_with(o: Seq<(Seq<u8>, JsonV)>, k: Seq<u8>, v: JsonV) -> Seq<
    (Seq<u8>, JsonV),
>
    decreases o.len(),
{
    if o.len() == 0 {
        seq![(k, v)]
    } else if o[0].0 == k {
        seq![(k, v)] + o.subrange(1, o.len() as int)
    } else {
        seq![o[0]] + obj_with(o.subrange(1, o.len() as int), k, v)
    }
}

pub proof fn lemma_obj_lookup_skip(o: Seq<(Seq<u8>, JsonV)>, k: Seq<u8>, i: int)
    requires
        0 <= i <= o.len(),
        forall|x: int| 0 <= x < i ==> o[x].0 != k,
    ensures
        obj_lookup(o, k) == obj_lookup(o.subrange(i, o.len() as int), k),
    decreases i,
{
    if i == 0 {
        assert(o.subrange(0, o.len() as int) =~= o);
    } else {
        lemma_obj_lookup_skip(o.subrange(1, o.len() as int), k, i - 1);
        assert(o.subrange(1, o.len() as int).subrange(i - 1, o.len() - 1) =~= o.subrange(
            i,
            o.len() as int,
        ));
    }
}

pub proof fn lemma_obj_without_append(a: Seq<(Seq<u8>, JsonV)>, b: Seq<(Seq<u8>, JsonV)>, k: Seq<u8>)
    ensures
        obj_without(a + b, k) == obj_without(a, k) + obj_without(b, k),
    decreases a.len(),
{
    if a.len() == 0 {
        assert(a + b =~= b);
        assert(obj_without(a, k) + obj_without(b, k) =~= obj_without(b, k));
    } else {
        assert((a + b).subrange(1, (a + b).len() as int) =~= a.subrange(1, a.len() as int) + b);
        lemma_obj_without_append(a.subrange(1, a.len() as int), b, k);
        assert(obj_without(a + b, k) =~= obj_without(a, k) + obj_without(b, k));
    }
}

pub proof fn lemma_keep_keys_append(o: Seq<(Seq<u8>, JsonV)>, ks1: Seq<Seq<u8>>, ks2: Seq<Seq<u8>>)
    ensures
        keep_keys(o, ks1 + ks2) == keep_keys(o, ks1) + keep_keys(o, ks2),
    decreases ks1.len(),
{
    if ks1.len() == 0 {
        assert(ks1 + ks2 =~= ks2);
        assert(keep_keys(o, ks1) + keep_keys(o, ks2) =~= keep_keys(o, ks2));
    } else {
        assert((ks1 + ks2).subrange(1, (ks1 + ks2).len() as int) =~= ks1.subrange(
            1,
            ks1.len() as int,
        ) + ks2);
        lemma_keep_keys_append(o, ks1.subrange(1, ks1.len() as int), ks2);
        assert(keep_keys(o, ks1 + ks2) =~= keep_keys(o, ks1) + keep_keys(o, ks2));
    }
}

/// A reference to the value of the first field named `k`, if any.
pub fn obj_get<'a>(o: &'a Vec<(Vec<u8>, Json)>, k: &Vec<u8>) -> (r: Option<&'a Json>)
    ensures
        match r {
            Some(v) => obj_lookup(jv_fields(o@), k@) == Some(jv(*v)),
            None => obj_lookup(jv_fields(o@), k@) is None,
        },
{
    proof {
        lemma_jv_fields_index(o@);
    }
    let ghost fo = jv_fields(o@);
    let n: usize = o.len();
    let mut i: usize = 0;
    while i < n
        invariant
            n == o@.len(),
            0 <= i <= n,
            fo == jv_fields(o@),
            fo.len() == n,
            forall|x: int| 0 <= x < n ==> fo[x] == (o@[x].0@, jv(o@[x].1)),
            forall|x: int| 0 <= x < i ==> fo[x].0 != k@,
        decreases n - i,
    {
        if bytes_eq(&o[i].0, k) {
            proof {
                lemma_obj_lookup_skip(fo, k@, i as int);
                assert(fo.subrange(i as int, n as int)[0] == fo[i as int]);
            }
            return Some(&o[i].1);
        }
        i += 1;
    }
    proof {
        lemma_obj_lookup_skip(fo, k@, n as int);
        assert(fo.subrange(n as int, n as int) =~= Seq::<(Seq<u8>, JsonV)>::empty());
    }
    None
}

/// A fresh object without any field named `k`.
pub fn obj_without_exec(o: &Vec<(Vec<u8>, Json)>, k: &Vec<u8>) -> (r: Vec<(Vec<u8>, Json)>)
    ensures
        jv_fields(r@) == obj_without(jv_fields(o@), k@),
{
    proof {
        lemma_jv_fields_index(o@);
    }
    let ghost fo = jv_fields(o@);
    let n: usize = o.len();
    let mut out: Vec<(Vec<u8>, Json)> = Vec::new();
    let mut i: usize = 0;
    while i < n
        invariant
            n == o@.len(),
            0 <= i <= n,
            fo == jv_fields(o@),
            fo.len() == n,
            forall|x: int| 0 <= x < n ==> fo[x] == (o@[x].0@, jv(o@[x].1)),
            jv_fields(out@) == obj_without(fo.subrange(0, i as int), k@),
        decreases n - i,
    {
        let ghost preview = out@;
        let keep = !bytes_eq(&o[i].0, k);
        if keep {
            out.push((clone_bytes(&o[i].0), json_clone(&o[i].1)));
        }
        proof {
            let ii = i as int;
            assert(fo.subrange(0, ii + 1) =~= fo.subrange(0, ii) + seq![fo[ii]]);
            lemma_obj_without_append(fo.subrange(0, ii), seq![fo[ii]], k@);
            lemma_obj_without_single(fo[ii], k@);
            if keep {
                let p = out@[out@.len() - 1];
                assert(out@ =~= preview + seq![p]);
                lemma_jv_fields_append(preview, seq![p]);
                lemma_jv_fields_single(p);
                assert(jv_fields(out@) =~= obj_without(fo.subrange(0, ii + 1), k@));
            } else {
                assert(jv_fields(out@) =~= obj_without(fo.subrange(0, ii + 1), k@));
            }
        }
        i += 1;
    }
    proof {
        assert(fo.subrange(0, n as int) =~= fo);
    }
    out
}

pub proof fn lemma_jv_fields_append(a: Seq<(Vec<u8>, Json)>, b: Seq<(Vec<u8>, Json)>)
    ensures
        jv_fields(a + b) == jv_fields(a) + jv_fields(b),
    decreases a.len(),
{
    if a.len() == 0 {
        assert(a + b =~= b);
        assert(jv_fields(a) + jv_fields(b) =~= jv_fields(b));
    } else {
        assert((a + b).subrange(1, (a + b).len() as int) =~= a.subrange(1, a.len() as int) + b);
        lemma_jv_fields_append(a.subrange(1, a.len() as int), b);
        assert(jv_fields(a + b) =~= jv_fields(a) + jv_fields(b));
    }
}

pub proof fn lemma_jv_fields_single(p: (Vec<u8>, Json))
    ensures
        jv_fields(seq![p]) == seq![(p.0@, jv(p.1))],
{
    assert(seq![p].subrange(1, 1) =~= Seq::<(Vec<u8>, Json)>::empty());
    assert(jv_fields(seq![p].subrange(1, 1)) == Seq::<(Seq<u8>, JsonV)>::empty());
    assert(jv_fields(seq![p]) =~= seq![(p.0@, jv(p.1))]);
}

pub proof fn lemma_obj_without_single(p: (Seq<u8>, JsonV), k: Seq<u8>)
    ensures
        p.0 == k ==> obj_without(seq![p], k) == Seq::<(Seq<u8>, JsonV)>::empty(),
        p.0 != k ==> obj_without(seq![p], k) == seq![p],
{
    assert(seq![p].subrange(1, 1) =~= Seq::<(Seq<u8>, JsonV)>::empty());
    assert(obj_without(seq![p].subrange(1, 1), k) == Seq::<(Seq<u8>, JsonV)>::empty());
    if p.0 != k {
        assert(obj_without(seq![p], k) =~= seq![p]);
    }
}

pub proof fn lemma_keep_keys_single(o: Seq<(Seq<u8>, JsonV)>, k: Seq<u8>)
    ensures
        obj_lookup(o, k) is Some ==> keep_keys(o, seq![k]) == seq![
            (k, obj_lookup(o, k)->Some_0),
        ],
        obj_lookup(o, k) is None ==> keep_keys(o, seq![k]) == Seq::<(Seq<u8>, JsonV)>::empty(),
{
    assert(seq![k].subrange(1, 1) =~= Seq::<Seq<u8>>::empty());
    assert(keep_keys(o, seq![k].subrange(1, 1)) == Seq::<(Seq<u8>, JsonV)>::empty());
    match obj_lookup(o, k) {
        Some(v) => {
            assert(keep_keys(o, seq![k]) =~= seq![(k, v)]);
        },
        None => {
            assert(keep_keys(o, seq![k]) =~= Seq::<(Seq<u8>, JsonV)>::empty());
        },
    }
}

/// A fresh object holding the fields of `o` named in `ks`, in that order.
pub fn keep_keys_exec(o: &Vec<(Vec<u8>, Json)>, ks: &Vec<Vec<u8>>) -> (r: Vec<(Vec<u8>, Json)>)
    ensures
        jv_fields(r@) == keep_keys(jv_fields(o@), ks.deep_view()),
{
    let ghost fo = jv_fields(o@);
    let ghost kv = ks.deep_view();
    proof {
        assert(kv.len() == ks@.len());
        assert(forall|x: int| 0 <= x < ks@.len() ==> kv[x] == ks@[x]@);
    }
    let n: usize = ks.len();
    let mut out: Vec<(Vec<u8>, Json)> = Vec::new();
    let mut i: usize = 0;
    while i < n
        invariant
            n == ks@.len(),
            0 <= i <= n,
            fo == jv_fields(o@),
            kv == ks.deep_view(),
            kv.len() == n,
            forall|x: int| 0 <= x < n ==> kv[x] == ks@[x]@,
            jv_fields(out@) == keep_keys(fo, kv.subrange(0, i as int)),
        decreases n - i,
    {
        let ghost preview = out@;
        let got = obj_get(o, &ks[i]);
        let pushed: bool;
        match got {
            Some(v) => {
                out.push((clone_bytes(&ks[i]), json_clone(v)));
                pushed = true;
            },
            None => {
                pushed = false;
            },
        }
        proof {
            let ii = i as int;
            assert(kv.subrange(0, ii + 1) =~= kv.subrange(0, ii) + seq![kv[ii]]);
            lemma_keep_keys_append(fo, kv.subrange(0, ii), seq![kv[ii]]);
            lemma_keep_keys_single(fo, kv[ii]);
            if pushed {
                let p = out@[out@.len() - 1];
                assert(out@ =~= preview + seq![p]);
                lemma_jv_fields_append(preview, seq![p]);
                lemma_jv_fields_single(p);
                assert(jv_fields(out@) =~= keep_keys(fo, kv.subrange(0, ii + 1)));
            } else {
                assert(jv_fields(out@) =~= keep_keys(fo, kv.subrange(0, ii + 1)));
            }
        }
        i += 1;
    }
    proof {
        assert(kv.subrange(0, n as int) =~= kv);
    }
    out
}

/// The position of the first field named `k`, or the field count when absent.
pub fn obj_index_of(o: &Vec<(Vec<u8>, Json)>, k: &Vec<u8>) -> (idx: usize)
    ensures
        idx <= o@.len(),
        forall|x: int| 0 <= x < idx ==> jv_fields(o@)[x].0 != k@,
        idx < o@.len() ==> jv_fields(o@)[idx as int].0 == k@,
{
    proof {
        lemma_jv_fields_index(o@);
    }
    let ghost fo = jv_fields(o@);
    let n: usize = o.len();
    let mut i: usize = 0;
    while i < n
        invariant
            n == o@.len(),
            0 <= i <= n,
            fo == jv_fields(o@),
            fo.len() == n,
            forall|x: int| 0 <= x < n ==> fo[x] == (o@[x].0@, jv(o@[x].1)),
            forall|x: int| 0 <= x < i ==> fo[x].0 != k@,
        decreases n - i,
    {
        if bytes_eq(&o[i].0, k) {
            return i;
        }
        i += 1;
    }
    n
}

/// A fresh object with the first field named `k` set to `v`, appended when absent.
pub fn obj_with_exec(o: &Vec<(Vec<u8>, Json)>, k: &Vec<u8>, v: Json) -> (r: Vec<(Vec<u8>, Json)>)
    ensures
        jv_fields(r@) == obj_with(jv_fields(o@), k@, jv(v)),
{
    proof {
        lemma_jv_fields_index(o@);
    }
    let ghost fo = jv_fields(o@);
    let n: usize = o.len();
    let idx = obj_index_of(o, k);
    let mut out: Vec<(Vec<u8>, Json)> = Vec::new();
    let mut i: usize = 0;
    while i < idx
        invariant
            n == o@.len(),
            idx <= n,
            0 <= i <= idx,
            fo == jv_fields(o@),
            fo.len() == n,
            forall|x: int| 0 <= x < n ==> fo[x] == (o@[x].0@, jv(o@[x].1)),
            out@.len() == i,
            forall|x: int| 0 <= x < i ==> (out@[x].0@, jv(out@[x].1)) == fo[x],
        decreases idx - i,
    {
        out.push((clone_bytes(&o[i].0), json_clone(&o[i].1)));
        i += 1;
    }
    out.push((clone_bytes(k), v));
    if idx < n {
        let mut x: usize = idx + 1;
        while x < n
            invariant
                n == o@.len(),
                idx < n,
                idx + 1 <= x <= n,
                fo == jv_fields(o@),
                fo.len() == n,
                forall|y: int| 0 <= y < n ==> fo[y] == (o@[y].0@, jv(o@[y].1)),
                out@.len() == x,
                forall|y: int| 0 <= y < idx ==> (out@[y].0@, jv(out@[y].1)) == fo[y],
                out@[idx as int].0@ == k@ && jv(out@[idx as int].1) == jv(v),
                forall|y: int| idx < y < x ==> (out@[y].0@, jv(out@[y].1)) == fo[y],
            decreases n - x,
        {
            out.push((clone_bytes(&o[x].0), json_clone(&o[x].1)));
            x += 1;
        }
        proof {
            lemma_jv_fields_index(out@);
            lemma_obj_with_found(fo, k@, jv(v), idx as int);
            assert(jv_fields(out@) =~= obj_with(fo, k@, jv(v)));
        }
    } else {
        proof {
            lemma_jv_fields_index(out@);
            lemma_obj_with_absent(fo, k@, jv(v));
            assert(jv_fields(out@) =~= obj_with(fo, k@, jv(v)));
        }
    }
    out
}

/// Looking a key up after setting it yields the new value; other keys are
/// untouched.
pub proof fn lemma_obj_with_lookup(o: Seq<(Seq<u8>, JsonV)>, k: Seq<u8>, v: JsonV, k2: Seq<u8>)
    ensures
        obj_lookup(obj_with(o, k, v), k2) == if k2 == k {
            Some(v)
        } else {
            obj_lookup(o, k2)
        },
    decreases o.len(),
{
    let o2 = obj_with(o, k, v);
    if o.len() == 0 {
        assert(o2 == seq![(k, v)]);
        assert(o2.subrange(1, 1) =~= Seq::<(Seq<u8>, JsonV)>::empty());
        if k2 != k {
            assert(obj_lookup(o2.subrange(1, 1), k2) is None);
        }
    } else if o[0].0 == k {
        assert(o2 == seq![(k, v)] + o.subrange(1, o.len() as int));
        assert(o2[0] == (k, v));
        if k2 != k {
            assert(o2.subrange(1, o2.len() as int) =~= o.subrange(1, o.len() as int));
        }
    } else {
        lemma_obj_with_lookup(o.subrange(1, o.len() as int), k, v, k2);
        assert(o2[0] == o[0]);
        assert(o2.subrange(1, o2.len() as int) =~= obj_with(
            o.subrange(1, o.len() as int),
            k,
            v,
        ));
    }
}

pub proof fn lemma_obj_with_found(o: Seq<(Seq<u8>, JsonV)>, k: Seq<u8>, v: JsonV, i: int)
    requires
        0 <= i < o.len(),
        forall|x: int| 0 <= x < i ==> o[x].0 != k,
        o[i].0 == k,
    ensures
        obj_with(o, k, v) == o.subrange(0, i) + seq![(k, v)] + o.subrange(i + 1, o.len() as int),
    decreases i,
{
    if i == 0 {
        assert(obj_with(o, k, v) =~= o.subrange(0, 0) + seq![(k, v)] + o.subrange(
            1,
            o.len() as int,
        ));
    } else {
        let rest = o.subrange(1, o.len() as int);
        lemma_obj_with_found(rest, k, v, i - 1);
        assert(rest.subrange(0, i - 1) =~= o.subrange(1, i));
        assert(rest.subrange(i, rest.len() as int) =~= o.subrange(i + 1, o.len() as int));
        assert(obj_with(o, k, v) =~= o.subrange(0, i) + seq![(k, v)] + o.subrange(
            i + 1,
            o.len() as int,
        ));
    }
}

pub proof fn lemma_obj_with_absent(o: Seq<(Seq<u8>, JsonV)>, k: Seq<u8>, v: JsonV)
    requires
        forall|x: int| 0 <= x < o.len() ==> o[x].0 != k,
    ensures
        obj_with(o, k, v) == o + seq![(k, v)],
    decreases o.len(),
{
    if o.len() == 0 {
        assert(obj_with(o, k, v) =~= o + seq![(k, v)]);
    } else {
        lemma_obj_with_absent(o.subrange(1, o.len() as int), k, v);
        assert(obj_with(o, k, v) =~= o + seq![(k, v)]);
    }
}

impl Json {
    /// Whether the document is an object.
    pub fn is_obj(&self) -> (r: bool)
        ensures
            r == (jv(*self) is Obj),
    {
        matches!(self, Json::Obj(_))
    }

    /// Whether the document is an array.
    pub fn is_arr(&self) -> (r: bool)
        ensures
            r == (jv(*self) is Arr),
    {
        matches!(self, Json::Arr(_))
    }
}

/// The serialised bytes of `j`, as a fresh buffer.
pub fn json_to_bytes(j: &Json) -> (r: Vec<u8>)
    ensures
        r@ == ser(jv(*j)),
{
    let mut out: Vec<u8> = Vec::new();
    json_write(j, &mut out);
    out
}

} // verus!
