//! Capacity-bounded, least-recently-used cache of fixed-size groups of
//! decoded lines ("chunks"), keyed by chunk-aligned start line.

use vstd::prelude::*;

verus! {

/// Number of lines a full chunk covers; chunk start lines are multiples of it.
pub const CHUNK_SIZE: usize = 500;

/// Start line of the chunk that owns a given line number.
pub open spec fn chunk_start_of(line_num: int) -> int {
    (line_num / CHUNK_SIZE as int) * CHUNK_SIZE as int
}

/// One cached chunk: the decoded lines covering `[start, start + lines.len())`.
pub struct CachedChunk {
    pub lines: Vec<String>,
}

/// LRU cache of chunks. The entries are kept in access order, oldest first,
/// so the sequence of keys is both the key set and the eviction order.
pub struct LineCache {
    entries: Vec<(usize, CachedChunk)>,
    max_chunks: usize,
}

impl LineCache {
    /// The access-order sequence of chunk start lines, oldest first.
    pub closed spec fn keys(&self) -> Seq<usize> {
        self.entries@.map_values(|e: (usize, CachedChunk)| e.0)
    }

    /// The capacity the cache was created with.
    pub closed spec fn capacity(&self) -> usize {
        self.max_chunks
    }

    /// Whether a chunk with this start line is cached.
    pub open spec fn has_chunk(&self, start: usize) -> bool {
        self.keys().contains(start)
    }

    /// The index of a cached chunk's entry in access order.
    pub closed spec fn index_of(&self, start: usize) -> int {
        self.keys().index_of(start)
    }

    /// The decoded lines of the chunk starting at `start`.
    pub closed spec fn chunk_lines(&self, start: usize) -> Seq<Seq<char>> {
        self.entries@[self.index_of(start)].1.lines.deep_view()
    }

    /// Whether `line_num` falls inside a cached chunk (a short final chunk
    /// covers fewer than `CHUNK_SIZE` lines).
    pub open spec fn spec_contains_line(&self, line_num: usize) -> bool {
        let cs = chunk_start_of(line_num as int);
        &&& self.has_chunk(cs as usize)
        &&& line_num - cs < self.chunk_lines(cs as usize).len()
    }

    /// Cache invariant: keys are distinct, the capacity is positive and the
    /// entry count never exceeds it.
    pub closed spec fn wf(&self) -> bool {
        &&& forall|i: int, j: int|
            0 <= i < j < self.keys().len() ==> self.keys()[i] != self.keys()[j]
        &&& self.entries@.len() <= self.max_chunks
        &&& self.max_chunks >= 1
    }

    /// The cache invariant, stated for callers: the access-order sequence
    /// holds each cached key exactly once, and the cache never holds more
    /// chunks than its capacity.
    pub proof fn lemma_invariant(&self)
        requires
            self.wf(),
        ensures
            self.keys().len() <= self.capacity(),
            forall|i: int, j: int|
                0 <= i < j < self.keys().len() ==> self.keys()[i] != self.keys()[j],
    {
    }

    pub fn new(max_chunks: usize) -> (r: Self)
        requires
            max_chunks >= 1,
        ensures
            r.wf(),
            r.keys() == Seq::<usize>::empty(),
            r.capacity() == max_chunks,
    {
        let r = Self { entries: Vec::new(), max_chunks };
        proof {
            assert(r.keys() =~= Seq::<usize>::empty());
        }
        r
    }

    /// Start line of the chunk that owns a given line number.
    pub fn chunk_start_for_line(line_num: usize) -> (r: usize)
        ensures
            r == chunk_start_of(line_num as int),
            r <= line_num,
            r as int % CHUNK_SIZE as int == 0,
    {
        proof {
            vstd::arithmetic::div_mod::lemma_fundamental_div_mod(
                line_num as int,
                CHUNK_SIZE as int,
            );
            vstd::arithmetic::div_mod::lemma_mod_multiples_basic(
                line_num as int / CHUNK_SIZE as int,
                CHUNK_SIZE as int,
            );
        }
        (line_num / CHUNK_SIZE) * CHUNK_SIZE
    }

    /// Index of the entry whose key is `start`, if one is cached.
    fn find_entry(&self, start: usize) -> (r: Option<usize>)
        requires
            self.wf(),
        ensures
            match r {
                Some(i) => {
                    &&& i < self.keys().len()
                    &&& self.keys()[i as int] == start
                    &&& i as int == self.index_of(start)
                },
                None => !self.has_chunk(start),
            },
    {
        let n = self.entries.len();
        let mut i: usize = 0;
        while i < n
            invariant
                self.wf(),
                n == self.keys().len(),
                i <= n,
                forall|j: int| 0 <= j < i ==> self.keys()[j] != start,
            decreases n - i,
        {
            if self.entries[i].0 == start {
                proof {
                    assert(self.keys()[i as int] == self.entries@[i as int].0);
                    assert(self.keys()[i as int] == start);
                    assert(self.keys().contains(start));
                    let found = self.index_of(start);
                    assert(self.keys()[found] == start);
                    if found < i as int {
                        assert(self.keys()[found] != self.keys()[i as int]);
                        assert(false);
                    } else if found > i as int {
                        assert(self.keys()[i as int] != self.keys()[found]);
                        assert(false);
                    }
                }
                return Some(i);
            }
            proof {
                assert(self.keys()[i as int] == self.entries@[i as int].0);
            }
            i += 1;
        }
        None
    }

    /// Check if a line is cached.
    pub fn contains_line(&self, line_num: usize) -> (b: bool)
        requires
            self.wf(),
        ensures
            b == self.spec_contains_line(line_num),
    {
        let chunk_start = Self::chunk_start_for_line(line_num);
        match self.find_entry(chunk_start) {
            Some(i) => {
                let offset = line_num - chunk_start;
                offset < self.entries[i].1.lines.len()
            },
            None => false,
        }
    }

    /// Get a line from cache if available; a hit on the owning chunk (even
    /// one too short to hold the line) refreshes that chunk's recency.
    pub fn get_line(&mut self, line_num: usize) -> (r: Option<String>)
        requires
            old(self).wf(),
        ensures
            final(self).wf(),
            final(self).capacity() == old(self).capacity(),
            ({
                let cs = chunk_start_of(line_num as int) as usize;
                &&& !old(self).has_chunk(cs) ==> *final(self) == *old(self) && r is None
                &&& old(self).has_chunk(cs) ==> {
                    &&& final(self).keys() == old(self).keys().remove(old(self).index_of(cs)).push(cs)
                    &&& forall|k: usize| old(self).has_chunk(k) ==>
                        final(self).has_chunk(k) && final(self).chunk_lines(k) == old(self).chunk_lines(k)
                    &&& forall|k: usize| final(self).has_chunk(k) ==> old(self).has_chunk(k)
                    &&& (r is Some <==> old(self).spec_contains_line(line_num))
                    &&& r matches Some(t) ==>
                        t@ == old(self).chunk_lines(cs)[line_num - cs]
                }
            }),
    {
        let chunk_start = Self::chunk_start_for_line(line_num);
        match self.find_entry(chunk_start) {
            None => None,
            Some(i) => {
                let ghost old_entries = self.entries@;
                let e = self.entries.remove(i);
                self.entries.push(e);
                proof {
                    assert(self.entries@ =~= old_entries.remove(i as int).push(old_entries[i as int]));
                    old(self).lemma_move_to_back(i as int, *self);
                }
                let last = self.entries.len() - 1;
                let offset = line_num - chunk_start;
                if offset < self.entries[last].1.lines.len() {
                    proof {
                        assert(self.keys().last() == chunk_start);
                        assert(self.index_of(chunk_start) == self.keys().len() - 1);
                        assert(self.chunk_lines(chunk_start) ==
                            old(self).chunk_lines(chunk_start));
                    }
                    Some(self.entries[last].1.lines[offset].clone())
                } else {
                    None
                }
            },
        }
    }

    /// Insert a chunk into the cache: if at capacity and `start_line` is not
    /// already a key, evict the least-recently-used chunk first; then
    /// insert or replace, marking `start_line` most-recently-used.
    pub fn insert_chunk(&mut self, start_line: usize, lines: Vec<String>)
        requires
            old(self).wf(),
        ensures
            final(self).wf(),
            final(self).capacity() == old(self).capacity(),
            final(self).has_chunk(start_line),
            final(self).chunk_lines(start_line) == lines.deep_view(),
            forall|k: usize| k != start_line && old(self).has_chunk(k) && final(self).has_chunk(k) ==>
                final(self).chunk_lines(k) == old(self).chunk_lines(k),
            ({
                let ks = old(self).keys();
                if ks.contains(start_line) {
                    final(self).keys() == ks.remove(ks.index_of(start_line)).push(start_line)
                } else if ks.len() >= old(self).capacity() {
                    final(self).keys() == ks.remove(0).push(start_line)
                } else {
                    final(self).keys() == ks.push(start_line)
                }
            }),
    {
        let ghost pre = *self;
        match self.find_entry(start_line) {
            Some(i) => {
                let _ = self.entries.remove(i);
                proof {
                    pre.lemma_remove_at(i as int, *self);
                }
            },
            None => {
                if self.entries.len() >= self.max_chunks {
                    let _ = self.entries.remove(0);
                    proof {
                        pre.lemma_remove_at(0, *self);
                    }
                }
            },
        }
        let ghost mid = *self;
        self.entries.push((start_line, CachedChunk { lines }));
        proof {
            mid.lemma_push_entry(start_line, *self);
        }
    }

    /// After removing the entry at `i`, every other key keeps its chunk.
    proof fn lemma_remove_at(self, i: int, post: Self)
        requires
            self.wf(),
            0 <= i < self.entries@.len(),
            post.entries@ == self.entries@.remove(i),
            post.max_chunks == self.max_chunks,
        ensures
            post.wf(),
            post.keys() == self.keys().remove(i),
            forall|k: usize| k != self.keys()[i] && self.has_chunk(k) ==>
                post.has_chunk(k) && post.chunk_lines(k) == self.chunk_lines(k),
            !post.has_chunk(self.keys()[i]),
    {
        assert(post.keys() =~= self.keys().remove(i));
        assert forall|k: usize| k != self.keys()[i] && self.has_chunk(k) implies
            post.has_chunk(k) && post.chunk_lines(k) == self.chunk_lines(k) by {
            let j = self.index_of(k);
            assert(self.keys()[j] == k);
            let j2 = if j < i { j } else { j - 1 };
            assert(post.keys()[j2] == k);
            assert(post.keys().contains(k));
            let j3 = post.index_of(k);
            assert(post.keys()[j3] == k);
            let j3_orig = if j3 < i { j3 } else { j3 + 1 };
            assert(self.keys()[j3_orig] == k);
            assert(j3_orig == j);
            assert(post.entries@[j3] == self.entries@[j]);
        }
        assert forall|j: int| 0 <= j < post.keys().len() implies
            post.keys()[j] != self.keys()[i] by {
            let j_orig = if j < i { j } else { j + 1 };
            assert(self.keys()[j_orig] == post.keys()[j]);
        }
    }

    /// Pushing an entry with a fresh key appends it to the access order and
    /// keeps every cached chunk.
    proof fn lemma_push_entry(self, key: usize, post: Self)
        requires
            self.wf(),
            !self.has_chunk(key),
            self.entries@.len() < self.max_chunks,
            post.entries@.len() == self.entries@.len() + 1,
            post.entries@ == self.entries@.push(post.entries@.last()),
            post.entries@.last().0 == key,
            post.max_chunks == self.max_chunks,
        ensures
            post.wf(),
            post.keys() == self.keys().push(key),
            post.has_chunk(key),
            post.chunk_lines(key) == post.entries@.last().1.lines.deep_view(),
            forall|k: usize| self.has_chunk(k) ==>
                post.has_chunk(k) && post.chunk_lines(k) == self.chunk_lines(k),
    {
        assert(post.keys() =~= self.keys().push(key));
        let n = self.keys().len() as int;
        assert(post.keys()[n] == key);
        assert(post.keys().contains(key));
        assert forall|j: int| 0 <= j < n implies post.keys()[j] != key by {
            assert(self.keys()[j] == post.keys()[j]);
        }
        assert(post.index_of(key) == n);
        assert forall|k: usize| self.has_chunk(k) implies
            post.has_chunk(k) && post.chunk_lines(k) == self.chunk_lines(k) by {
            let j = self.index_of(k);
            assert(self.keys()[j] == k);
            assert(post.keys()[j] == k);
            assert(post.keys().contains(k));
            let j2 = post.index_of(k);
            assert(post.keys()[j2] == k);
            assert(j2 < n);
            assert(self.keys()[j2] == k);
            assert(j2 == j);
            assert(post.entries@[j] == self.entries@[j]);
        }
    }

    /// Moving the entry at `i` to the back refreshes its recency and keeps
    /// every cached chunk.
    proof fn lemma_move_to_back(self, i: int, post: Self)
        requires
            self.wf(),
            0 <= i < self.entries@.len(),
            post.entries@ == self.entries@.remove(i).push(self.entries@[i]),
            post.max_chunks == self.max_chunks,
        ensures
            post.wf(),
            post.keys() == self.keys().remove(i).push(self.keys()[i]),
            forall|k: usize| self.has_chunk(k) ==>
                post.has_chunk(k) && post.chunk_lines(k) == self.chunk_lines(k),
            forall|k: usize| post.has_chunk(k) ==> self.has_chunk(k),
    {
        let key = self.keys()[i];
        assert(post.keys() =~= self.keys().remove(i).push(key));
        assert forall|k: usize| self.has_chunk(k) implies
            post.has_chunk(k) && post.chunk_lines(k) == self.chunk_lines(k) by {
            let j = self.index_of(k);
            assert(self.keys()[j] == k);
            if j == i {
                let n = post.keys().len() - 1;
                assert(post.keys()[n as int] == k);
                assert(post.keys().contains(k));
                let j2 = post.index_of(k);
                assert(post.keys()[j2] == k);
                if j2 < n {
                    let j2_orig = if j2 < i { j2 } else { j2 + 1 };
                    assert(self.keys()[j2_orig] == k);
                    assert(j2_orig == i);
                    assert(false);
                }
                assert(post.entries@[j2] == self.entries@[i]);
            } else {
                let j2 = if j < i { j } else { j - 1 };
                assert(post.keys()[j2] == k);
                assert(post.keys().contains(k));
                let j3 = post.index_of(k);
                assert(post.keys()[j3] == k);
                if j3 == post.keys().len() - 1 {
                    assert(post.keys()[j3] == key);
                    assert(self.keys()[j] == self.keys()[i]);
                    assert(false);
                }
                let j3_orig = if j3 < i { j3 } else { j3 + 1 };
                assert(self.keys()[j3_orig] == k);
                assert(j3_orig == j);
                assert(post.entries@[j3] == self.entries@[j]);
            }
        }
        assert forall|k: usize| post.has_chunk(k) implies self.has_chunk(k) by {
            let j = post.index_of(k);
            assert(post.keys()[j] == k);
            if j == post.keys().len() - 1 {
                assert(self.keys()[i] == k);
            } else {
                let j_orig = if j < i { j } else { j + 1 };
                assert(self.keys()[j_orig] == k);
            }
        }
    }
}

} // verus!
