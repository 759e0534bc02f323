use vstd::prelude::*;

verus! {

broadcast use vstd::std_specs::vec::group_vec_axioms;

/// Whether two byte strings hold the same bytes.
pub fn bytes_eq(a: &Vec<u8>, b: &Vec<u8>) -> (r: bool)
    ensures
        r == (a@ == b@),
{
    if a.len() != b.len() {
        assert(a@.len() != b@.len());
        return false;
    }
    let n: usize = a.len();
    let mut i: usize = 0;
    while i < n
        invariant
            n == a@.len() == b@.len(),
            0 <= i <= n,
            forall|k: int| 0 <= k < i ==> a@[k] == b@[k],
        decreases n - i,
    {
        if a[i] != b[i] {
            return false;
        }
        i += 1;
    }
    proof {
        assert(a@ =~= b@);
    }
    true
}

/// Appends the bytes of `b` to `out`.
pub fn write_bytes(out: &mut Vec<u8>, b: &Vec<u8>)
    ensures
        final(out)@ == old(out)@ + b@,
{
    let n: usize = b.len();
    let mut i: usize = 0;
    while i < n
        invariant
            n == b@.len(),
            0 <= i <= n,
            out@ == old(out)@ + b@.subrange(0, i as int),
        decreases n - i,
    {
        out.push(b[i]);
        proof {
            assert(b@.subrange(0, i + 1) =~= b@.subrange(0, i as int) + seq![b@[i as int]]);
            assert(out@ =~= old(out)@ + b@.subrange(0, i + 1));
        }
        i += 1;
    }
    proof {
        assert(b@.subrange(0, n as int) =~= b@);
    }
}

/// Whether `hay` matches `needle` starting at position `at`.
pub open spec fn matches_at(hay: Seq<u8>, needle: Seq<u8>, at: int) -> bool {
    0 <= at && at + needle.len() <= hay.len() && hay.subrange(at, at + needle.len()) == needle
}

/// Whether `needle` occurs somewhere inside `hay`.
pub open spec fn contains_seq(hay: Seq<u8>, needle: Seq<u8>) -> bool {
    exists|at: int| matches_at(hay, needle, at)
}

/// Whether `s` begins with `p`.
pub open spec fn starts_with_seq(s: Seq<u8>, p: Seq<u8>) -> bool {
    p.len() <= s.len() && s.subrange(0, p.len() as int) == p
}

/// Whether `s` ends with `p`.
pub open spec fn ends_with_seq(s: Seq<u8>, p: Seq<u8>) -> bool {
    p.len() <= s.len() && s.subrange(s.len() - p.len(), s.len() as int) == p
}

fn matches_at_exec(hay: &Vec<u8>, needle: &Vec<u8>, at: usize) -> (r: bool)
    requires
        at + needle@.len() <= hay@.len(),
    ensures
        r == matches_at(hay@, needle@, at as int),
{
    let n: usize = needle.len();
    let hn: usize = hay.len();
    let mut j: usize = 0;
    while j < n
        invariant
            n == needle@.len(),
            hn == hay@.len(),
            at + n <= hn,
            0 <= j <= n,
            forall|k: int| 0 <= k < j ==> hay@[at + k] == needle@[k],
        decreases n - j,
    {
        if hay[at + j] != needle[j] {
            proof {
                let jj = j as int;
                assert(hay@.subrange(at as int, at + n) =~= needle@ ==> hay@[at + jj]
                    == needle@[jj]);
            }
            return false;
        }
        j += 1;
    }
    proof {
        assert(hay@.subrange(at as int, at + n) =~= needle@);
    }
    true
}

/// Whether `needle` occurs somewhere inside `hay`.
pub fn memmem(hay: &Vec<u8>, needle: &Vec<u8>) -> (r: bool)
    ensures
        r == contains_seq(hay@, needle@),
{
    if needle.len() > hay.len() {
        proof {
            assert(forall|at: int| !matches_at(hay@, needle@, at));
        }
        return false;
    }
    if needle.len() == 0 {
        proof {
            assert(hay@.subrange(0, 0) =~= needle@);
            assert(matches_at(hay@, needle@, 0));
        }
        return true;
    }
    let last: usize = hay.len() - needle.len();
    let mut i: usize = 0;
    while i <= last
        invariant
            1 <= needle@.len() <= hay@.len(),
            hay@.len() <= usize::MAX,
            last == hay@.len() - needle@.len(),
            0 <= i <= last + 1,
            forall|at: int| 0 <= at < i ==> !matches_at(hay@, needle@, at),
        decreases last - i + 1,
    {
        if matches_at_exec(hay, needle, i) {
            return true;
        }
        i += 1;
    }
    proof {
        assert(forall|at: int| at > last ==> !matches_at(hay@, needle@, at));
    }
    false
}

/// The position of the first occurrence of `b` in `s`.
pub open spec fn find_byte(s: Seq<u8>, b: u8) -> Option<int>
    decreases s.len(),
{
    if s.len() == 0 {
        None
    } else if s[0] == b {
        Some(0int)
    } else {
        match find_byte(s.subrange(1, s.len() as int), b) {
            Some(i) => Some(i + 1),
            None => None,
        }
    }
}

pub proof fn lemma_find_byte(s: Seq<u8>, b: u8)
    ensures
        match find_byte(s, b) {
            Some(i) => 0 <= i < s.len() && s[i] == b && forall|j: int| 0 <= j < i ==> s[j] != b,
            None => forall|j: int| 0 <= j < s.len() ==> s[j] != b,
        },
    decreases s.len(),
{
    if s.len() > 0 && s[0] != b {
        let sub = s.subrange(1, s.len() as int);
        lemma_find_byte(sub, b);
        assert(forall|j: int| 0 <= j < sub.len() ==> sub[j] == s[j + 1]);
        match find_byte(sub, b) {
            Some(i) => {
                assert(s[i + 1] == b);
                assert(forall|j: int| 1 <= j < i + 1 ==> s[j] == sub[j - 1] && s[j] != b);
            },
            None => {
                assert forall|j: int| 0 <= j < s.len() implies s[j] != b by {
                    if j >= 1 {
                        assert(sub[j - 1] == s[j]);
                    }
                }
            },
        }
    }
}

/// The position of the first occurrence of `b` in `s` at or past `from`.
pub fn find_byte_from(s: &Vec<u8>, b: u8, from: usize) -> (r: Option<usize>)
    requires
        from <= s@.len(),
    ensures
        match r {
            Some(i) => from <= i < s@.len() && find_byte(s@.subrange(from as int, s@.len() as int), b)
                == Some(i - from),
            None => find_byte(s@.subrange(from as int, s@.len() as int), b) is None,
        },
{
    let ghost tail = s@.subrange(from as int, s@.len() as int);
    let n: usize = s.len();
    let mut i: usize = from;
    while i < n
        invariant
            from <= i <= n,
            n == s@.len(),
            tail == s@.subrange(from as int, s@.len() as int),
            forall|j: int| from <= j < i ==> s@[j] != b,
        decreases n - i,
    {
        if s[i] == b {
            proof {
                lemma_find_byte(tail, b);
                assert(tail[i - from] == s@[i as int]);
                assert(forall|j: int| 0 <= j < i - from ==> tail[j] == s@[j + from]);
                match find_byte(tail, b) {
                    Some(k) => {
                        assert(tail[k] == b);
                        assert(k == i - from);
                    },
                    None => {
                        assert(tail[i - from] != b);
                        assert(false);
                    },
                }
            }
            return Some(i);
        }
        i += 1;
    }
    proof {
        lemma_find_byte(tail, b);
        assert(forall|j: int| 0 <= j < tail.len() ==> tail[j] == s@[j + from]);
        match find_byte(tail, b) {
            Some(k) => {
                assert(tail[k] != b);
                assert(false);
            },
            None => {},
        }
    }
    None
}

/// A copy of the bytes in `[from, to)`.
pub fn sub_bytes(v: &Vec<u8>, from: usize, to: usize) -> (r: Vec<u8>)
    requires
        from <= to <= v@.len(),
    ensures
        r@ == v@.subrange(from as int, to as int),
{
    let mut out: Vec<u8> = Vec::new();
    let mut i: usize = from;
    while i < to
        invariant
            from <= i <= to <= v@.len(),
            out@ == v@.subrange(from as int, i as int),
        decreases to - i,
    {
        out.push(v[i]);
        proof {
            assert(v@.subrange(from as int, i + 1) =~= v@.subrange(from as int, i as int)
                + seq![v@[i as int]]);
            assert(out@ =~= v@.subrange(from as int, i + 1));
        }
        i += 1;
    }
    out
}

/// Whether `s` begins with `p`.
pub fn starts_with(s: &Vec<u8>, p: &Vec<u8>) -> (r: bool)
    ensures
        r == starts_with_seq(s@, p@),
{
    if p.len() > s.len() {
        return false;
    }
    matches_at_exec(s, p, 0)
}

/// Whether `s` ends with `p`.
pub fn ends_with(s: &Vec<u8>, p: &Vec<u8>) -> (r: bool)
    ensures
        r == ends_with_seq(s@, p@),
{
    if p.len() > s.len() {
        return false;
    }
    let at: usize = s.len() - p.len();
    matches_at_exec(s, p, at)
}

} // verus!
