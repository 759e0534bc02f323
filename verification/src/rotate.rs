use vstd::prelude::*;

use crate::bytes::bytes_eq;
use crate::bytes::starts_with_seq;
use crate::decimal::digits_val;
use crate::decimal::is_digit_seq;
use crate::decimal::lemma_digits_val_mono;

verus! {

broadcast use vstd::std_specs::vec::group_vec_axioms;

/// Concatenation of a sequence of byte strings, in order.
pub open spec fn concat_all(s: Seq<Seq<u8>>) -> Seq<u8>
    decreases s.len(),
{
    if s.len() == 0 {
        Seq::empty()
    } else {
        s[0] + concat_all(s.subrange(1, s.len() as int))
    }
}

pub proof fn lemma_concat_all_append(s1: Seq<Seq<u8>>, s2: Seq<Seq<u8>>)
    ensures
        concat_all(s1 + s2) == concat_all(s1) + concat_all(s2),
    decreases s1.len(),
{
    if s1.len() == 0 {
        assert(s1 + s2 =~= s2);
        assert(concat_all(s1) + concat_all(s2) =~= concat_all(s2));
    } else {
        assert((s1 + s2).subrange(1, (s1 + s2).len() as int) =~= s1.subrange(
            1,
            s1.len() as int,
        ) + s2);
        lemma_concat_all_append(s1.subrange(1, s1.len() as int), s2);
        assert(concat_all(s1 + s2) =~= concat_all(s1) + concat_all(s2));
    }
}

pub proof fn lemma_concat_all_push(s: Seq<Seq<u8>>, x: Seq<u8>)
    ensures
        concat_all(s.push(x)) == concat_all(s) + x,
{
    assert(s.push(x) =~= s + seq![x]);
    lemma_concat_all_append(s, seq![x]);
    assert(seq![x].subrange(1, 1) =~= Seq::<Seq<u8>>::empty());
    assert(concat_all(seq![x].subrange(1, 1)) == Seq::<u8>::empty());
    assert(concat_all(seq![x]) =~= x);
    assert(concat_all(s) + concat_all(seq![x]) =~= concat_all(s) + x);
}

/// The bytes of a file past the preamble the new-file hook wrote.
pub open spec fn payload(f: Seq<u8>, header: Seq<u8>) -> Seq<u8> {
    f.subrange(header.len() as int, f.len() as int)
}

/// The payloads of a run of rotated files, in rotation order.
pub open spec fn payloads(files: Seq<Seq<u8>>, header: Seq<u8>) -> Seq<Seq<u8>> {
    Seq::new(files.len(), |i: int| payload(files[i], header))
}

/// What one call of `write` asked the caller to mirror on disk.
pub struct WriteEffect {
    /// When set, the active file was closed and is to be renamed to
    /// `<base>.<n>`, and a fresh `<base>` opened with the preamble written.
    pub rotated_to: Option<u64>,
    /// Whether the buffer is to be appended to the (possibly fresh) active file.
    pub appended: bool,
}

/// Size-capped append-only sink with numbered-suffix rotation.
///
/// The writer tracks the active file's size and the rotation index, and a
/// ghost model of every file's contents; the caller mirrors each
/// [`WriteEffect`] onto the file system. A fixed `header` stands for the
/// new-file hook: it is the preamble a fresh active file starts with.
pub struct RotatingWriter {
    pub max_bytes: u64,
    pub header: Vec<u8>,
    pub size: u64,
    pub next_index: u64,
    /// Contents of the rotated files `<base>.1 ..`, oldest first.
    pub files: Ghost<Seq<Seq<u8>>>,
    /// Contents of the active file `<base>`.
    pub active: Ghost<Seq<u8>>,
    /// Every buffer accepted by `write`, in order.
    pub written: Ghost<Seq<Seq<u8>>>,
    /// Payload the active file already held when the writer opened on it,
    /// as on resuming an earlier run's output.
    pub preexisting: Ghost<Seq<u8>>,
}

impl RotatingWriter {
    /// Well-formedness: sizes agree, every file begins with the preamble,
    /// the concatenated payloads reproduce the pre-existing payload and then
    /// the accepted buffers in order, and once this run has written anything
    /// the active file outgrows the cap only through its last buffer.
    pub open spec fn wf(self) -> bool {
        &&& self.size == self.active@.len()
        &&& self.header@.len() <= self.max_bytes
        &&& starts_with_seq(self.active@, self.header@)
        &&& (forall|i: int|
            0 <= i < self.files@.len() ==> starts_with_seq(#[trigger] self.files@[i], self.header@))
        &&& concat_all(payloads(self.files@, self.header@)) + payload(self.active@, self.header@)
            == self.preexisting@ + concat_all(self.written@)
        &&& (self.size <= self.max_bytes || self.written@.len() == 0 || self.active@
            == self.header@ + self.written@.last())
    }

    /// The whole logical stream: what decoding the rotated files in suffix
    /// order and then the active file yields.
    pub open spec fn stream(self) -> Seq<u8> {
        concat_all(payloads(self.files@, self.header@)) + payload(self.active@, self.header@)
    }

    /// Opens a fresh writer: the hook has just written the preamble to the
    /// empty active file.
    pub fn new(max_bytes: u64, header: Vec<u8>, next_index: u64) -> (r: Self)
        requires
            header@.len() <= max_bytes,
            next_index >= 1,
        ensures
            r.wf(),
            r.max_bytes == max_bytes,
            r.header@ == header@,
            r.size == header@.len(),
            r.next_index == next_index,
            r.files@ == Seq::<Seq<u8>>::empty(),
            r.active@ == header@,
            r.written@ == Seq::<Seq<u8>>::empty(),
            r.preexisting@ == Seq::<u8>::empty(),
    {
        let size = header.len() as u64;
        let r = RotatingWriter {
            max_bytes,
            header,
            size,
            next_index,
            files: Ghost(Seq::empty()),
            active: Ghost(Seq::empty()),
            written: Ghost(Seq::empty()),
            preexisting: Ghost(Seq::empty()),
        };
        let ghost h = r.header@;
        let r = RotatingWriter { active: Ghost(h), ..r };
        proof {
            assert(r.active@.subrange(0, r.header@.len() as int) =~= r.header@);
            assert(payloads(r.files@, r.header@) =~= Seq::<Seq<u8>>::empty());
            assert(concat_all(Seq::<Seq<u8>>::empty()) == Seq::<u8>::empty());
            assert(payload(r.active@, r.header@) =~= Seq::<u8>::empty());
            assert(r.stream() =~= r.preexisting@ + concat_all(r.written@));
        }
        r
    }

    /// Opens the writer over an existing, non-truncated active file of
    /// `existing_len` bytes, as when a run resumes in an output directory an
    /// earlier run filled: the hook does not run, and the next rotation
    /// index is the caller's, computed from the directory's numbered files.
    pub fn resume(max_bytes: u64, header: Vec<u8>, next_index: u64, existing_len: u64) -> (r: Self)
        requires
            header@.len() <= max_bytes,
            header@.len() <= existing_len,
            next_index >= 1,
        ensures
            r.wf(),
            r.max_bytes == max_bytes,
            r.header@ == header@,
            r.size == existing_len,
            r.next_index == next_index,
            r.files@ == Seq::<Seq<u8>>::empty(),
            r.written@ == Seq::<Seq<u8>>::empty(),
            r.preexisting@.len() == existing_len - header@.len(),
    {
        let ghost h = header@;
        proof {
            assert(exists|c: Seq<u8>| c.len() == existing_len && starts_with_seq(c, h)) by {
                let w = h + Seq::new((existing_len - h.len()) as nat, |i: int| 0u8);
                assert(w.len() == existing_len);
                assert(w.subrange(0, h.len() as int) =~= h);
                assert(starts_with_seq(w, h));
            }
        }
        let ghost content = choose|c: Seq<u8>| c.len() == existing_len && starts_with_seq(c, h);
        let r = RotatingWriter {
            max_bytes,
            header,
            size: existing_len,
            next_index,
            files: Ghost(Seq::empty()),
            active: Ghost(content),
            written: Ghost(Seq::empty()),
            preexisting: Ghost(payload(content, h)),
        };
        proof {
            assert(payloads(r.files@, r.header@) =~= Seq::<Seq<u8>>::empty());
            assert(concat_all(Seq::<Seq<u8>>::empty()) == Seq::<u8>::empty());
            assert(concat_all(payloads(r.files@, r.header@)) + payload(r.active@, r.header@)
                =~= r.preexisting@ + concat_all(r.written@));
        }
        r
    }

    /// Whether counting `len` more bytes stays within the size field's range.
    /// This can only fail after more bytes than a file system holds.
    pub open spec fn write_fits(self, len: nat) -> bool {
        &&& self.size + len <= u64::MAX
        &&& self.header@.len() + len <= u64::MAX
    }

    /// What one `write` call does: nothing for an empty buffer or past the
    /// size field's range; otherwise the buffer is accepted, rotating first
    /// exactly when it would push the active file past `max_bytes`.
    pub open spec fn write_post(pre: Self, post: Self, buf: Seq<u8>, eff: WriteEffect) -> bool {
        &&& post.max_bytes == pre.max_bytes
        &&& post.header@ == pre.header@
        &&& post.preexisting@ == pre.preexisting@
        &&& (buf.len() == 0 ==> post == pre && eff.rotated_to is None && !eff.appended)
        &&& (!pre.write_fits(buf.len()) ==> post == pre && eff.rotated_to is None && !eff.appended)
        &&& (buf.len() > 0 && pre.write_fits(buf.len()) ==> {
            &&& post.written@ == pre.written@.push(buf)
            &&& eff.appended
            &&& if pre.size + buf.len() <= pre.max_bytes {
                &&& eff.rotated_to is None
                &&& post.files@ == pre.files@
                &&& post.active@ == pre.active@ + buf
                &&& post.size == pre.size + buf.len()
                &&& post.next_index == pre.next_index
            } else {
                &&& eff.rotated_to == Some(pre.next_index)
                &&& post.files@ == pre.files@.push(pre.active@)
                &&& post.active@ == pre.header@ + buf
                &&& post.size == pre.header@.len() + buf.len()
                &&& post.next_index == if pre.next_index < u64::MAX {
                    (pre.next_index + 1) as u64
                } else {
                    pre.next_index
                }
            }
        })
    }

    /// Appends one whole buffer. When the buffer would push the active file
    /// past `max_bytes`, the file is first rotated, so the buffer lands
    /// entirely in one file; a buffer larger than `max_bytes` still lands in
    /// full in a fresh file.
    pub fn write(&mut self, buf: &Vec<u8>) -> (eff: WriteEffect)
        requires
            old(self).wf(),
        ensures
            final(self).wf(),
            Self::write_post(*old(self), *final(self), buf@, eff),
    {
        if buf.len() == 0 {
            return WriteEffect { rotated_to: None, appended: false };
        }
        let len = buf.len() as u64;
        if self.size as u128 + len as u128 > u64::MAX as u128 || self.header.len() as u128
            + len as u128 > u64::MAX as u128 {
            return WriteEffect { rotated_to: None, appended: false };
        }
        let mut rotated_to: Option<u64> = None;
        if self.size as u128 + len as u128 > self.max_bytes as u128 {
            // close the active file, rename it to the next suffix, open a
            // fresh one and run the hook on it
            rotated_to = Some(self.next_index);
            proof {
                let files1 = self.files@.push(self.active@);
                lemma_concat_all_push(payloads(self.files@, self.header@),
                    payload(self.active@, self.header@));
                assert(payloads(files1, self.header@) =~= payloads(
                    self.files@,
                    self.header@,
                ).push(payload(self.active@, self.header@)));
            }
            let ghost rotated = self.active@;
            let ghost files1 = self.files@.push(rotated);
            let ghost h = self.header@;
            self.files = Ghost(files1);
            self.active = Ghost(h);
            self.size = self.header.len() as u64;
            self.next_index = self.next_index.saturating_add(1);
            proof {
                assert(payload(self.active@, self.header@) =~= Seq::<u8>::empty());
            }
        }
        proof {
            lemma_concat_all_push(self.written@, buf@);
        }
        let ghost act1 = self.active@ + buf@;
        let ghost wr1 = self.written@.push(buf@);
        self.active = Ghost(act1);
        self.written = Ghost(wr1);
        self.size = self.size + len;
        proof {
            assert(starts_with_seq(self.active@, self.header@)) by {
                assert(self.active@.subrange(0, self.header@.len() as int) =~= self.header@);
            }
            assert(concat_all(self.written@) =~= concat_all(old(self).written@) + buf@);
            match rotated_to {
                Some(_) => {
                    assert(payload(self.active@, self.header@) =~= buf@);
                    assert(concat_all(payloads(self.files@, self.header@)) =~= concat_all(
                        payloads(old(self).files@, self.header@),
                    ) + payload(old(self).active@, self.header@));
                },
                None => {
                    assert(self.files@ == old(self).files@);
                    assert(payload(self.active@, self.header@) =~= payload(
                        old(self).active@,
                        self.header@,
                    ) + buf@);
                },
            }
            assert(concat_all(payloads(self.files@, self.header@)) + payload(
                self.active@,
                self.header@,
            ) =~= (concat_all(payloads(old(self).files@, self.header@)) + payload(
                old(self).active@,
                self.header@,
            )) + buf@);
            assert((self.preexisting@ + concat_all(old(self).written@)) + buf@
                =~= self.preexisting@ + concat_all(self.written@));
            assert(concat_all(payloads(self.files@, self.header@)) + payload(
                self.active@,
                self.header@,
            ) =~= self.preexisting@ + concat_all(self.written@));
        }
        WriteEffect { rotated_to, appended: true }
    }
}

/// Decoding the rotated files in suffix order and then the active file
/// reproduces the payload held before this run and then every accepted
/// buffer, in order and untruncated.
pub proof fn lemma_stream_reproduces_writes(w: RotatingWriter)
    requires
        w.wf(),
    ensures
        w.stream() == w.preexisting@ + concat_all(w.written@),
{
}

/// Rotation happens before, never after, the write: a buffer joins the
/// already-open active file only when the result stays within `max_bytes`;
/// otherwise the file rotates and the buffer is the fresh file's first
/// payload. Either way the whole buffer lands in one file.
pub proof fn lemma_rotation_before_write(
    pre: RotatingWriter,
    post: RotatingWriter,
    buf: Seq<u8>,
    eff: WriteEffect,
)
    requires
        pre.wf(),
        RotatingWriter::write_post(pre, post, buf, eff),
        buf.len() > 0,
        pre.write_fits(buf.len()),
    ensures
        eff.rotated_to is None ==> pre.size + buf.len() <= pre.max_bytes && post.active@
            == pre.active@ + buf,
        eff.rotated_to is Some ==> pre.size + buf.len() > pre.max_bytes && post.active@
            == pre.header@ + buf,
{
}

/// The cap is advisory on "would exceed": a buffer larger than the cap
/// still succeeds, rotating to a fresh file that then holds exactly the
/// preamble and that whole buffer.
pub proof fn lemma_oversized_write_lands_whole(
    pre: RotatingWriter,
    post: RotatingWriter,
    buf: Seq<u8>,
    eff: WriteEffect,
)
    requires
        pre.wf(),
        RotatingWriter::write_post(pre, post, buf, eff),
        buf.len() > pre.max_bytes,
        pre.write_fits(buf.len()),
    ensures
        eff.appended,
        eff.rotated_to == Some(pre.next_index),
        post.active@ == pre.header@ + buf,
        post.written@ == pre.written@.push(buf),
{
}

/// Once this run has written anything, the active file exceeds the cap only
/// because its one last buffer was itself too large for it.
pub proof fn lemma_cap_exceeded_only_by_one_buffer(w: RotatingWriter)
    requires
        w.wf(),
        w.size > w.max_bytes,
        w.written@.len() > 0,
    ensures
        w.active@ == w.header@ + w.written@.last(),
        w.header@.len() + w.written@.last().len() > w.max_bytes,
{
}

/// The rotation index a directory entry carries: for `<base>.<N>` with a
/// numeric suffix that fits `u64`, that number.
pub open spec fn suffix_index(name: Seq<u8>, base: Seq<u8>) -> Option<u64> {
    let suffix = name.subrange(base.len() as int + 1, name.len() as int);
    if name.len() > base.len() + 1 && name.subrange(0, base.len() as int) == base && name[(
    base.len()) as int] == 46 && is_digit_seq(suffix) && digits_val(suffix) <= u64::MAX {
        Some(digits_val(suffix) as u64)
    } else {
        None
    }
}

/// The largest rotation index among directory entries; zero when none carry
/// one.
pub open spec fn largest_suffix(names: Seq<Seq<u8>>, base: Seq<u8>) -> u64
    decreases names.len(),
{
    if names.len() == 0 {
        0u64
    } else {
        let rest = largest_suffix(names.subrange(1, names.len() as int), base);
        match suffix_index(names[0], base) {
            Some(v) => if v > rest {
                v
            } else {
                rest
            },
            None => rest,
        }
    }
}

/// The rotation index a directory entry carries, or nothing.
fn parse_suffix(name: &Vec<u8>, base: &Vec<u8>) -> (r: Option<u64>)
    ensures
        r == suffix_index(name@, base@),
{
    let nl: usize = name.len();
    let bl: usize = base.len();
    if nl < 2 || bl >= nl - 1 {
        return None;
    }
    let prefix = crate::bytes::sub_bytes(name, 0, bl);
    if !bytes_eq(&prefix, base) {
        return None;
    }
    if name[bl] != 46 {
        return None;
    }
    let ghost suffix = name@.subrange(bl + 1, nl as int);
    proof {
        assert(forall|k: int| 0 <= k < suffix.len() ==> suffix[k] == name@[bl + 1 + k]);
    }
    let mut acc: u128 = 0;
    let mut i: usize = bl + 1;
    while i < nl
        invariant
            nl == name@.len(),
            bl == base@.len(),
            nl > bl + 1,
            name@.subrange(0, bl as int) == base@,
            name@[bl as int] == 46,
            bl + 1 <= i <= nl,
            suffix == name@.subrange(bl + 1, nl as int),
            is_digit_seq(suffix.subrange(0, i - (bl + 1))),
            acc == digits_val(suffix.subrange(0, i - (bl + 1))),
            acc <= u64::MAX,
        decreases nl - i,
    {
        let b = name[i];
        if b < 48 || b > 57 {
            proof {
                assert(suffix[i - (bl + 1)] == name@[i as int]);
            }
            return None;
        }
        proof {
            let k = i - (bl + 1);
            assert(suffix.subrange(0, k + 1).subrange(0, k) =~= suffix.subrange(0, k));
            assert(suffix.subrange(0, k + 1)[k] == suffix[k]);
        }
        acc = acc * 10 + ((b - 48) as u128);
        if acc > u64::MAX as u128 {
            proof {
                assert(suffix.subrange(0, suffix.len() as int) =~= suffix);
                if is_digit_seq(suffix) {
                    lemma_digits_val_mono(suffix, i - (bl + 1) + 1);
                }
            }
            return None;
        }
        i += 1;
    }
    proof {
        assert(suffix.subrange(0, suffix.len() as int) =~= suffix);
    }
    Some(acc as u64)
}

/// The next rotation index for a directory: one greater than the largest
/// numeric `<base>.<N>` suffix among the entries, one when none carry any.
pub fn next_index_from_names(names: &Vec<Vec<u8>>, base: &Vec<u8>) -> (r: u64)
    ensures
        ({
            let m = largest_suffix(names.deep_view(), base@);
            r == if m < u64::MAX {
                (m + 1) as u64
            } else {
                u64::MAX
            }
        }),
        r >= 1,
{
    let ghost nv = names.deep_view();
    proof {
        assert(nv.len() == names@.len());
        assert(forall|x: int| 0 <= x < names@.len() ==> nv[x] == names@[x]@);
        assert(nv.subrange(0, nv.len() as int) =~= nv);
    }
    let n: usize = names.len();
    let mut m: u64 = 0;
    let mut i: usize = 0;
    while i < n
        invariant
            n == names@.len(),
            0 <= i <= n,
            nv == names.deep_view(),
            nv.len() == n,
            forall|x: int| 0 <= x < n ==> nv[x] == names@[x]@,
            ({
                let rest = largest_suffix(nv.subrange(i as int, n as int), base@);
                largest_suffix(nv, base@) == if m > rest {
                    m
                } else {
                    rest
                }
            }),
        decreases n - i,
    {
        let s = parse_suffix(&names[i], base);
        let ghost pre = m;
        match s {
            Some(v) => {
                if v > m {
                    m = v;
                }
            },
            None => {},
        }
        proof {
            let ii = i as int;
            let cur = nv.subrange(ii, n as int);
            assert(cur[0] == nv[ii]);
            assert(cur.subrange(1, cur.len() as int) =~= nv.subrange(ii + 1, n as int));
        }
        i += 1;
    }
    proof {
        assert(nv.subrange(n as int, n as int) =~= Seq::<Seq<u8>>::empty());
        assert(largest_suffix(Seq::<Seq<u8>>::empty(), base@) == 0);
    }
    m.saturating_add(1)
}

} // verus!
