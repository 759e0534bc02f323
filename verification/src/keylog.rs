use vstd::prelude::*;

use crate::bytes::find_byte;
use crate::bytes::find_byte_from;
use crate::bytes::lemma_find_byte;
use crate::bytes::write_bytes;
use crate::rotate::RotatingWriter;
use crate::rotate::WriteEffect;

verus! {

broadcast use vstd::std_specs::vec::group_vec_axioms;

/// Splits a byte stream into complete `LF`-terminated lines and the
/// unfinished tail.
pub open spec fn split_lines(s: Seq<u8>) -> (Seq<Seq<u8>>, Seq<u8>)
    decreases s.len(),
{
    match find_byte(s, 10) {
        None => (Seq::empty(), s),
        Some(i) => {
            proof {
                lemma_find_byte(s, 10);
            }
            let line = s.subrange(0, i + 1);
            let rec = split_lines(s.subrange(i + 1, s.len() as int));
            (seq![line] + rec.0, rec.1)
        },
    }
}

/// Every line that `split_lines` yields ends with `LF`, and the tail holds none.
pub proof fn lemma_split_lines_complete(s: Seq<u8>)
    ensures
        forall|i: int|
            0 <= i < split_lines(s).0.len() ==> {
                let line = #[trigger] split_lines(s).0[i];
                line.len() > 0 && line[line.len() - 1] == 10
            },
        forall|j: int| 0 <= j < split_lines(s).1.len() ==> split_lines(s).1[j] != 10,
    decreases s.len(),
{
    lemma_find_byte(s, 10);
    match find_byte(s, 10) {
        None => {},
        Some(i) => {
            let rest = s.subrange(i + 1, s.len() as int);
            lemma_split_lines_complete(rest);
            assert(split_lines(s).0[0] == s.subrange(0, i + 1));
            assert(forall|x: int|
                0 <= x < split_lines(rest).0.len() ==> split_lines(s).0[x + 1]
                    == split_lines(rest).0[x]);
        },
    }
}

/// How many whole lines were accepted since the last flush before the sink
/// asks the caller to flush again.
pub const KEYLOG_FLUSH_EVERY: u32 = 2000;

/// What one `append_line` call asked the caller to mirror on disk.
pub struct SinkEffect {
    pub write: WriteEffect,
    /// Whether the sink's buffered output is to be flushed now.
    pub flush: bool,
}

/// Global NSS-keylog sink: whole lines into a rotating writer, no preamble.
pub struct KeylogSink {
    pub writer: RotatingWriter,
    pub since_flush: u32,
}

impl KeylogSink {
    pub open spec fn wf(self) -> bool {
        &&& self.writer.wf()
        &&& self.writer.header@.len() == 0
        &&& self.since_flush < KEYLOG_FLUSH_EVERY
    }

    /// Opens the sink over a fresh rotating writer without a preamble.
    pub fn new(max_bytes: u64) -> (r: Self)
        ensures
            r.wf(),
            r.writer.max_bytes == max_bytes,
            r.writer.written@ == Seq::<Seq<u8>>::empty(),
    {
        KeylogSink { writer: RotatingWriter::new(max_bytes, Vec::new(), 1), since_flush: 0 }
    }

    /// Opens the sink over a caller-prepared writer, as when resuming an
    /// earlier run's output file at its observed size and rotation index.
    pub fn with_writer(writer: RotatingWriter) -> (r: Self)
        requires
            writer.wf(),
            writer.header@.len() == 0,
        ensures
            r.wf(),
            r.writer == writer,
    {
        KeylogSink { writer, since_flush: 0 }
    }

    /// Appends one whole line; empty input is ignored. Asks for a flush after
    /// every `KEYLOG_FLUSH_EVERY` accepted lines.
    pub fn append_line(&mut self, line: &Vec<u8>) -> (eff: SinkEffect)
        requires
            old(self).wf(),
        ensures
            final(self).wf(),
            final(self).writer.max_bytes == old(self).writer.max_bytes,
            line@.len() == 0 ==> final(self).writer == old(self).writer && !eff.flush
                && final(self).since_flush == old(self).since_flush,
            !old(self).writer.write_fits(line@.len()) ==> final(self).writer == old(self).writer,
            line@.len() > 0 && old(self).writer.write_fits(line@.len()) ==> final(self)
                .writer.written@ == old(self).writer.written@.push(line@),
            line@.len() > 0 ==> {
                &&& eff.flush == (old(self).since_flush + 1 >= KEYLOG_FLUSH_EVERY)
                &&& final(self).since_flush == (if eff.flush {
                    0u32
                } else {
                    (old(self).since_flush + 1) as u32
                })
            },
    {
        if line.len() == 0 {
            return SinkEffect {
                write: WriteEffect { rotated_to: None, appended: false },
                flush: false,
            };
        }
        let write = self.writer.write(line);
        let flush: bool;
        if self.since_flush + 1 >= KEYLOG_FLUSH_EVERY {
            self.since_flush = 0;
            flush = true;
        } else {
            self.since_flush = self.since_flush + 1;
            flush = false;
        }
        SinkEffect { write, flush }
    }
}

/// Whether the global keylog sink was initialised.
pub fn is_enabled(sink: &Option<KeylogSink>) -> (r: bool)
    ensures
        r == (sink is Some),
{
    match sink {
        Some(_) => true,
        None => false,
    }
}

/// Opens the keylog sink when saving key logs is enabled.
pub fn init(max_bytes: u64, enabled: bool) -> (r: Option<KeylogSink>)
    ensures
        enabled ==> (r matches Some(s) && s.wf() && s.writer.written@
            == Seq::<Seq<u8>>::empty()),
        !enabled ==> r is None,
{
    if enabled {
        Some(KeylogSink::new(max_bytes))
    } else {
        None
    }
}

/// Per-connection adapter: buffers raw bytes and hands out complete lines.
pub struct PerConnKeylog {
    pub buf: Vec<u8>,
}

impl PerConnKeylog {
    /// A fresh adapter when the sink is enabled.
    pub fn new(enabled: bool) -> (r: Option<Self>)
        ensures
            enabled ==> (r matches Some(a) && a.buf@ == Seq::<u8>::empty()),
            !enabled ==> r is None,
    {
        if enabled {
            Some(PerConnKeylog { buf: Vec::new() })
        } else {
            None
        }
    }

    /// Accepts raw bytes and returns the complete lines now available, in
    /// order; the unfinished tail stays buffered.
    pub fn push_bytes(&mut self, data: &Vec<u8>) -> (lines: Vec<Vec<u8>>)
        ensures
            lines.deep_view() == split_lines(old(self).buf@ + data@).0,
            final(self).buf@ == split_lines(old(self).buf@ + data@).1,
    {
        write_bytes(&mut self.buf, data);
        self.take_lines()
    }

    /// Hands out the complete lines still buffered and drops the unfinished
    /// tail, as on drop of the adapter: a partial line is never forwarded.
    pub fn finish(&mut self) -> (lines: Vec<Vec<u8>>)
        ensures
            lines.deep_view() == split_lines(old(self).buf@).0,
            final(self).buf@ == Seq::<u8>::empty(),
    {
        let lines = self.take_lines();
        self.buf = Vec::new();
        lines
    }

    /// Extracts every complete line from the buffer.
    fn take_lines(&mut self) -> (lines: Vec<Vec<u8>>)
        ensures
            lines.deep_view() == split_lines(old(self).buf@).0,
            final(self).buf@ == split_lines(old(self).buf@).1,
    {
        let ghost orig = self.buf@;
        let mut out: Vec<Vec<u8>> = Vec::new();
        loop
            invariant
                split_lines(orig).0 == out.deep_view() + split_lines(self.buf@).0,
                split_lines(orig).1 == split_lines(self.buf@).1,
            ensures
                out.deep_view() == split_lines(orig).0,
                self.buf@ == split_lines(orig).1,
            decreases self.buf@.len(),
        {
            let found = find_byte_from(&self.buf, 10, 0);
            match found {
                None => {
                    proof {
                        assert(self.buf@.subrange(0, self.buf@.len() as int) =~= self.buf@);
                        assert(split_lines(self.buf@).0 =~= Seq::<Seq<u8>>::empty());
                        assert(out.deep_view() + split_lines(self.buf@).0 =~= out.deep_view());
                    }
                    break ;
                },
                Some(i) => {
                    proof {
                        assert(self.buf@.subrange(0, self.buf@.len() as int) =~= self.buf@);
                    }
                    let ghost pre = self.buf@;
                    let ghost preout = out.deep_view();
                    let bl: usize = self.buf.len();
                    proof {
                        assert(i < bl);
                    }
                    let rest = self.buf.split_off(i + 1);
                    let mut line: Vec<u8> = rest;
                    core::mem::swap(&mut self.buf, &mut line);
                    out.push(line);
                    proof {
                        let ii = i as int;
                        assert(line@ == pre.subrange(0, ii + 1));
                        assert(self.buf@ == pre.subrange(ii + 1, pre.len() as int));
                        assert(split_lines(pre).0 =~= seq![line@] + split_lines(self.buf@).0);
                        assert(out.deep_view().len() == preout.len() + 1);
                        assert(out.deep_view()[preout.len() as int] == line@);
                        assert(forall|x: int|
                            0 <= x < preout.len() ==> out.deep_view()[x] == preout[x]);
                        assert(out.deep_view() =~= preout + seq![line@]);
                        assert(preout + split_lines(pre).0 =~= out.deep_view() + split_lines(
                            self.buf@,
                        ).0);
                    }
                },
            }
        }
        out
    }
}

} // verus!
