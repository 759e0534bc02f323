use vstd::prelude::*;

use crate::bytes::write_bytes;
use crate::decimal::dec_str;
use crate::decimal::dec_str_exec;

verus! {

/// A number padded to at least two digits.
pub open spec fn pad2(v: nat) -> Seq<u8> {
    if v < 10 {
        seq![48u8, (48 + v) as u8]
    } else {
        dec_str(v)
    }
}

fn pad2_exec(v: u64) -> (r: Vec<u8>)
    ensures
        r@ == pad2(v as nat),
{
    if v < 10 {
        let mut out: Vec<u8> = Vec::new();
        out.push(48);
        out.push(48 + (v as u8));
        proof {
            assert(out@ =~= pad2(v as nat));
        }
        out
    } else {
        dec_str_exec(v)
    }
}

/// A duration in seconds written as `HH:MM:SS`, or `MM:SS` when under an
/// hour, each part padded to two digits.
pub open spec fn fmt_hms_spec(secs: nat) -> Seq<u8> {
    let h = secs / 3600;
    let m = (secs % 3600) / 60;
    let s = secs % 60;
    if h > 0 {
        pad2(h) + seq![58u8] + pad2(m) + seq![58u8] + pad2(s)
    } else {
        pad2(m) + seq![58u8] + pad2(s)
    }
}

/// Writes a duration for the progress line.
pub fn fmt_hms(secs: u64) -> (r: Vec<u8>)
    ensures
        r@ == fmt_hms_spec(secs as nat),
{
    let h = secs / 3600;
    let m = (secs % 3600) / 60;
    let s = secs % 60;
    let mut out: Vec<u8> = Vec::new();
    if h > 0 {
        let hp = pad2_exec(h);
        write_bytes(&mut out, &hp);
        out.push(58);
    }
    let mp = pad2_exec(m);
    write_bytes(&mut out, &mp);
    out.push(58);
    let sp = pad2_exec(s);
    write_bytes(&mut out, &sp);
    proof {
        assert(out@ =~= fmt_hms_spec(secs as nat));
    }
    out
}

} // verus!
