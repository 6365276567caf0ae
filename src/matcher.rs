//! Recognition of a marker in a byte stream that arrives piece by piece.
//!
//! The matcher keeps one progress counter: the length of the longest prefix
//! of the marker that ends the stream seen so far. On a mismatch it falls
//! back to the next shorter prefix that still fits rather than to zero, so
//! it reports the first occurrence of any marker, self-overlapping or not,
//! without holding on to the stream.

use vstd::prelude::*;

verus! {

/// The first `k` bytes of `pattern` stand in `s` just before position `end`.
pub open spec fn prefix_at(s: Seq<u8>, pattern: Seq<u8>, k: int, end: int) -> bool {
    &&& 0 <= k <= pattern.len()
    &&& k <= end <= s.len()
    &&& forall|i: int| 0 <= i < k ==> s[end - k + i] == #[trigger] pattern[i]
}

/// The whole of `pattern` stands in `s` just before position `end`.
pub open spec fn occurs_at(s: Seq<u8>, pattern: Seq<u8>, end: int) -> bool {
    prefix_at(s, pattern, pattern.len() as int, end)
}

/// `pattern` occurs somewhere in `s` as a contiguous run.
pub open spec fn contains(s: Seq<u8>, pattern: Seq<u8>) -> bool {
    exists|end: int| occurs_at(s, pattern, end)
}

/// `end` is where the first occurrence of `pattern` in `s` ends.
pub open spec fn is_first_end(s: Seq<u8>, pattern: Seq<u8>, end: int) -> bool {
    &&& occurs_at(s, pattern, end)
    &&& forall|e: int| e < end ==> !#[trigger] occurs_at(s, pattern, e)
}

/// Where the first occurrence of `pattern` in `s` ends (meaningful when `s`
/// contains it).
pub open spec fn first_end(s: Seq<u8>, pattern: Seq<u8>) -> int {
    choose|end: int| is_first_end(s, pattern, end)
}

/// What a matcher has consumed after `seen` is followed by `chunk`: once the
/// marker has occurred, nothing more; else everything up to and including
/// the first occurrence, or all of it when there is none.
pub open spec fn absorb(pattern: Seq<u8>, seen: Seq<u8>, chunk: Seq<u8>) -> Seq<u8> {
    if contains(seen, pattern) {
        seen
    } else if contains(seen + chunk, pattern) {
        (seen + chunk).take(first_end(seen + chunk, pattern))
    } else {
        seen + chunk
    }
}

/// A matcher fed the reads in `chunks` one after the other.
pub open spec fn absorb_all(pattern: Seq<u8>, seen: Seq<u8>, chunks: Seq<Seq<u8>>) -> Seq<u8>
    decreases chunks.len(),
{
    if chunks.len() == 0 {
        seen
    } else {
        absorb_all(pattern, absorb(pattern, seen, chunks[0]), chunks.drop_first())
    }
}

/// An occurrence has a first one.
pub proof fn lemma_first_end(s: Seq<u8>, pattern: Seq<u8>, end: int)
    requires
        occurs_at(s, pattern, end),
    ensures
        is_first_end(s, pattern, first_end(s, pattern)),
    decreases end,
{
    if exists|e: int| e < end && occurs_at(s, pattern, e) {
        let e = choose|e: int| e < end && occurs_at(s, pattern, e);
        lemma_first_end(s, pattern, e);
    } else {
        assert(is_first_end(s, pattern, end));
    }
}

/// The first occurrence is unique.
pub proof fn lemma_first_end_unique(s: Seq<u8>, pattern: Seq<u8>, end: int)
    requires
        is_first_end(s, pattern, end),
    ensures
        first_end(s, pattern) == end,
{
    lemma_first_end(s, pattern, end);
    let f = first_end(s, pattern);
    if f < end {
        assert(!occurs_at(s, pattern, f));
    } else if end < f {
        assert(!occurs_at(s, pattern, end));
    }
}

/// What stands before `end` is not changed by bytes appended later.
proof fn lemma_prefix_stable(s: Seq<u8>, u: Seq<u8>, pattern: Seq<u8>, k: int, end: int)
    requires
        end <= s.len(),
    ensures
        prefix_at(s + u, pattern, k, end) == prefix_at(s, pattern, k, end),
{
    if 0 <= k <= pattern.len() && k <= end {
        assert forall|j: int| 0 <= j < end implies #[trigger] (s + u)[j] == s[j] by {}
    }
}

/// Occurrences that end within `s` are those of `s + u` that end there.
pub proof fn lemma_occurrences_stable(s: Seq<u8>, u: Seq<u8>, pattern: Seq<u8>)
    ensures
        forall|end: int|
            end <= s.len() ==> (occurs_at(s + u, pattern, end) == occurs_at(s, pattern, end)),
{
    assert forall|end: int|
        end <= s.len() implies (occurs_at(s + u, pattern, end) == occurs_at(s, pattern, end)) by {
        lemma_prefix_stable(s, u, pattern, pattern.len() as int, end);
    }
}

/// Occurrences that end within a prefix are those of the prefix.
proof fn lemma_take_occurrences(s: Seq<u8>, n: int, pattern: Seq<u8>)
    requires
        0 <= n <= s.len(),
    ensures
        forall|end: int| end <= n ==> (occurs_at(s.take(n), pattern, end) == occurs_at(s, pattern, end)),
{
    assert(s =~= s.take(n) + s.skip(n));
    lemma_occurrences_stable(s.take(n), s.skip(n), pattern);
}

/// Before the marker is found, one more byte is always consumed.
pub proof fn lemma_absorb_byte(pattern: Seq<u8>, seen: Seq<u8>, byte: u8)
    requires
        !contains(seen, pattern),
    ensures
        absorb(pattern, seen, seq![byte]) == seen + seq![byte],
{
    let t = seen + seq![byte];
    if contains(t, pattern) {
        let e = choose|e: int| occurs_at(t, pattern, e);
        lemma_first_end(t, pattern, e);
        lemma_occurrences_stable(seen, seq![byte], pattern);
        let f = first_end(t, pattern);
        assert(!occurs_at(seen, pattern, f));
        assert(t.take(f) =~= t);
    }
}

/// Feeding `a` and then `b` leaves a matcher where feeding `a + b` at once does.
pub proof fn lemma_absorb_concat(pattern: Seq<u8>, seen: Seq<u8>, a: Seq<u8>, b: Seq<u8>)
    ensures
        absorb(pattern, absorb(pattern, seen, a), b) == absorb(pattern, seen, a + b),
{
    let sa = seen + a;
    let sab = seen + (a + b);
    assert(sa + b =~= sab);
    if contains(seen, pattern) {
    } else if contains(sa, pattern) {
        let e = choose|e: int| occurs_at(sa, pattern, e);
        lemma_first_end(sa, pattern, e);
        let f = first_end(sa, pattern);
        lemma_occurrences_stable(sa, b, pattern);
        lemma_take_occurrences(sa, f, pattern);
        assert(occurs_at(sa.take(f), pattern, f));
        assert(occurs_at(sab, pattern, f));
        assert forall|e: int| e < f implies !#[trigger] occurs_at(sab, pattern, e) by {
            assert(!occurs_at(sa, pattern, e));
        }
        assert(is_first_end(sab, pattern, f));
        lemma_first_end_unique(sab, pattern, f);
        assert(sab.take(f) =~= sa.take(f));
    } else {
        assert(absorb(pattern, seen, a) == sa);
    }
}

/// A marker split over any number of reads is found where it would be were
/// the stream delivered in one read.
pub proof fn lemma_chunking_invariant(pattern: Seq<u8>, seen: Seq<u8>, chunks: Seq<Seq<u8>>)
    ensures
        absorb_all(pattern, seen, chunks) == absorb(pattern, seen, chunks.flatten()),
    decreases chunks.len(),
{
    if chunks.len() == 0 {
        assert(seen + Seq::<u8>::empty() =~= seen);
        if contains(seen, pattern) {
        }
    } else {
        let next = absorb(pattern, seen, chunks[0]);
        lemma_chunking_invariant(pattern, next, chunks.drop_first());
        lemma_absorb_concat(pattern, seen, chunks[0], chunks.drop_first().flatten());
    }
}

/// With the first `q` bytes of `pattern` ending `s`, the first `k` of them
/// end `s` followed by `byte` exactly when the byte fits and the shorter
/// prefix stands at the end of the longer one.
proof fn lemma_extend(s: Seq<u8>, pattern: Seq<u8>, q: int, byte: u8, k: int)
    requires
        0 <= q < pattern.len(),
        prefix_at(s, pattern, q, s.len() as int),
        1 <= k <= q + 1,
    ensures
        prefix_at(s.push(byte), pattern, k, (s.len() + 1) as int) <==> (pattern[k - 1] == byte && forall|
            i: int,
        |
            0 <= i < k - 1 ==> pattern[q - (k - 1) + i] == #[trigger] pattern[i]),
{
    let t = s.push(byte);
    let n = s.len() as int;
    assert(t[n] == byte);
    assert forall|j: int| 0 <= j < n implies #[trigger] t[j] == s[j] by {}
    if prefix_at(t, pattern, k, n + 1) {
        assert(t[n + 1 - k + (k - 1)] == pattern[k - 1]);
        assert forall|i: int| 0 <= i < k - 1 implies pattern[q - (k - 1) + i] == #[trigger] pattern[i] by {
            assert(t[n + 1 - k + i] == pattern[i]);
            assert(s[n - q + (q - (k - 1) + i)] == pattern[q - (k - 1) + i]);
        }
    }
    if pattern[k - 1] == byte && forall|i: int|
        0 <= i < k - 1 ==> pattern[q - (k - 1) + i] == #[trigger] pattern[i] {
        assert forall|i: int| 0 <= i < k implies t[n + 1 - k + i] == #[trigger] pattern[i] by {
            if i < k - 1 {
                assert(s[n - q + (q - (k - 1) + i)] == pattern[q - (k - 1) + i]);
            }
        }
    }
}

/// A prefix that ends `s` followed by one more byte, less its last byte,
/// ends `s`.
proof fn lemma_shorten(s: Seq<u8>, pattern: Seq<u8>, byte: u8, k: int)
    requires
        1 <= k,
        prefix_at(s.push(byte), pattern, k, (s.len() + 1) as int),
    ensures
        prefix_at(s, pattern, k - 1, s.len() as int),
{
    let t = s.push(byte);
    let n = s.len() as int;
    assert forall|i: int| 0 <= i < k - 1 implies s[n - (k - 1) + i] == #[trigger] pattern[i] by {
        assert(t[n + 1 - k + i] == pattern[i]);
    }
}

/// Recognises the first occurrence of a marker in a stream fed to it one
/// byte or one read at a time.
pub struct SequenceMatcher {
    pattern: Vec<u8>,
    /// Length of the longest proper prefix of the marker that ends the
    /// stream seen so far (while nothing has been found).
    progress: usize,
    found: bool,
    seen: Ghost<Seq<u8>>,
}

impl SequenceMatcher {
    /// The marker looked for.
    pub closed spec fn pattern(&self) -> Seq<u8> {
        self.pattern@
    }

    /// Every byte consumed so far.
    pub closed spec fn seen(&self) -> Seq<u8> {
        self.seen@
    }

    pub closed spec fn wf(&self) -> bool {
        let p = self.pattern@;
        let s = self.seen@;
        &&& p.len() > 0
        &&& self.found == contains(s, p)
        &&& self.found ==> is_first_end(s, p, s.len() as int)
        &&& !self.found ==> {
            &&& self.progress < p.len()
            &&& prefix_at(s, p, self.progress as int, s.len() as int)
            &&& forall|k: int|
                self.progress < k <= p.len() ==> !#[trigger] prefix_at(s, p, k, s.len() as int)
        }
    }

    /// A matcher for `pattern` that has seen nothing yet.
    pub fn new(pattern: &[u8]) -> (r: Self)
        requires
            pattern@.len() > 0,
        ensures
            r.wf(),
            r.pattern() == pattern@,
            r.seen() == Seq::<u8>::empty(),
    {
        let r = SequenceMatcher {
            pattern: vstd::slice::slice_to_vec(pattern),
            progress: 0,
            found: false,
            seen: Ghost(Seq::empty()),
        };
        assert forall|k: int| 0 < k <= pattern@.len() implies !#[trigger] prefix_at(
            Seq::<u8>::empty(),
            pattern@,
            k,
            0,
        ) by {}
        r
    }

    /// Whether the marker has been seen.
    pub fn is_found(&self) -> (r: bool)
        requires
            self.wf(),
        ensures
            r == contains(self.seen(), self.pattern()),
    {
        self.found
    }

    /// Whether the first `k` bytes of the marker end the stream seen so far
    /// followed by `byte`.
    fn extends(&self, k: usize, byte: u8) -> (r: bool)
        requires
            self.wf(),
            !self.found,
            1 <= k <= self.progress + 1,
        ensures
            r == prefix_at(self.seen@.push(byte), self.pattern@, k as int, (self.seen@.len() + 1) as int),
    {
        proof {
            lemma_extend(self.seen@, self.pattern@, self.progress as int, byte, k as int);
        }
        if self.pattern[k - 1] != byte {
            return false;
        }
        let m: usize = k - 1;
        let offset: usize = self.progress - m;
        let mut i: usize = 0;
        while i < m
            invariant
                self.wf(),
                !self.found,
                m == k - 1,
                offset == self.progress - m,
                1 <= k <= self.progress + 1,
                i <= m,
                forall|j: int| 0 <= j < i ==> self.pattern@[offset + j] == #[trigger] self.pattern@[j],
            decreases m - i,
        {
            if self.pattern[offset + i] != self.pattern[i] {
                return false;
            }
            i = i + 1;
        }
        true
    }

    /// The length of the longest prefix of the marker that ends the stream
    /// seen so far followed by `byte`.
    fn next_progress(&self, byte: u8) -> (k: usize)
        requires
            self.wf(),
            !self.found,
        ensures
            k <= self.pattern@.len(),
            prefix_at(self.seen@.push(byte), self.pattern@, k as int, (self.seen@.len() + 1) as int),
            forall|j: int|
                k < j <= self.pattern@.len() ==> !#[trigger] prefix_at(
                    self.seen@.push(byte),
                    self.pattern@,
                    j,
                    ((self.seen@.len() + 1) as int) as int,
                ),
    {
        let ghost t = self.seen@.push(byte);
        let ghost n: int = (self.seen@.len() + 1) as int;
        proof {
            assert forall|j: int|
                self.progress + 1 < j <= self.pattern@.len() implies !#[trigger] prefix_at(
                t,
                self.pattern@,
                j,
                n,
            ) by {
                if prefix_at(t, self.pattern@, j, n) {
                    lemma_shorten(self.seen@, self.pattern@, byte, j);
                    assert(prefix_at(self.seen@, self.pattern@, j - 1, self.seen@.len() as int));
                }
            }
        }
        let len = self.pattern.len();
        let mut k: usize = self.progress + 1;
        while k > 0
            invariant
                self.wf(),
                !self.found,
                len == self.pattern@.len(),
                t == self.seen@.push(byte),
                n == self.seen@.len() + 1,
                k <= self.progress + 1,
                forall|j: int| k < j <= self.pattern@.len() ==> !#[trigger] prefix_at(t, self.pattern@, j, n),
            decreases k,
        {
            if self.extends(k, byte) {
                return k;
            }
            k = k - 1;
        }
        assert(prefix_at(t, self.pattern@, 0, n));
        0
    }

    /// Consumes one byte and says whether the marker has now been seen. Once
    /// it has, further bytes are not consumed.
    pub fn feed(&mut self, byte: u8) -> (r: bool)
        requires
            old(self).wf(),
        ensures
            final(self).wf(),
            final(self).pattern() == old(self).pattern(),
            final(self).seen() == absorb(old(self).pattern(), old(self).seen(), seq![byte]),
            r == contains(final(self).seen(), final(self).pattern()),
    {
        if self.found {
            return true;
        }
        let ghost s = self.seen@;
        let ghost p = self.pattern@;
        let ghost t = s.push(byte);
        assert(s + seq![byte] =~= t);
        let k = self.next_progress(byte);
        proof {
            lemma_occurrences_stable(s, seq![byte], p);
        }
        self.seen = Ghost(t);
        if k == self.pattern.len() {
            self.found = true;
            proof {
                assert(occurs_at(t, p, t.len() as int));
                assert forall|e: int| e < t.len() implies !#[trigger] occurs_at(t, p, e) by {
                    assert(!occurs_at(s, p, e));
                }
                lemma_first_end_unique(t, p, t.len() as int);
                assert(t.take(t.len() as int) =~= t);
            }
        } else {
            self.progress = k;
            proof {
                assert forall|e: int| !#[trigger] occurs_at(t, p, e) by {
                    if e < t.len() {
                        assert(!occurs_at(s, p, e));
                    }
                }
            }
        }
        self.found
    }

    /// Consumes the bytes of one read, stopping right after the marker is
    /// completed, and returns how many of them were consumed.
    pub fn feed_chunk(&mut self, chunk: &[u8]) -> (r: usize)
        requires
            old(self).wf(),
        ensures
            final(self).wf(),
            final(self).pattern() == old(self).pattern(),
            final(self).seen() == absorb(old(self).pattern(), old(self).seen(), chunk@),
            final(self).seen() == old(self).seen() + chunk@.take(r as int),
            r <= chunk@.len(),
    {
        let ghost p = self.pattern@;
        let ghost s0 = self.seen@;
        let mut i: usize = 0;
        proof {
            assert(s0 + chunk@.take(0) =~= s0);
            if !contains(s0, p) {
                assert(!contains(s0 + chunk@.take(0), p));
            }
        }
        while i < chunk.len() && !self.found
            invariant
                self.wf(),
                self.pattern@ == p,
                i <= chunk@.len(),
                self.seen@ == absorb(p, s0, chunk@.take(i as int)),
                self.seen@ == s0 + chunk@.take(i as int),
            decreases chunk@.len() - i,
        {
            proof {
                lemma_absorb_concat(p, s0, chunk@.take(i as int), seq![chunk@[i as int]]);
                assert(chunk@.take(i as int) + seq![chunk@[i as int]] =~= chunk@.take(i + 1));
                lemma_absorb_byte(p, self.seen@, chunk@[i as int]);
            }
            self.feed(chunk[i]);
            i = i + 1;
            proof {
                assert(s0 + chunk@.take(i as int) =~= s0 + chunk@.take(i - 1) + seq![chunk@[i - 1]]);
            }
        }
        proof {
            if i < chunk.len() {
                lemma_absorb_concat(p, s0, chunk@.take(i as int), chunk@.skip(i as int));
                assert(chunk@.take(i as int) + chunk@.skip(i as int) =~= chunk@);
            } else {
                assert(chunk@.take(i as int) =~= chunk@);
            }
        }
        i
    }
}

} // verus!
