//! Local backend: an in-memory table of line-start offsets over a
//! memory-mapped file, giving O(1) line lookup without reading the whole
//! file into owned memory.

use vstd::prelude::*;
use vstd::string::*;
use vstd::utf8::{decode_utf8, valid_utf8};

use crate::error::PogError;
use crate::file_source::{present_lines, FileSource};

verus! {

#[verifier::external_type_specification]
#[verifier::external_body]
pub struct ExMmap(memmap2::Mmap);

/// The bytes a memory map holds: fixed for a given map value.
pub uninterp spec fn mmap_bytes(m: memmap2::Mmap) -> Seq<u8>;

/// Relies on `memmap2::Mmap::len`: the length of the mapped region.
#[verifier::external_body]
fn mmap_len(m: &memmap2::Mmap) -> (r: usize)
    ensures
        r == mmap_bytes(*m).len(),
{
    m.len()
}

/// Relies on `memmap2::Mmap`'s `Deref` to `[u8]`: one mapped byte.
#[verifier::external_body]
fn mmap_byte(m: &memmap2::Mmap, i: usize) -> (r: u8)
    requires
        i < mmap_bytes(*m).len(),
    ensures
        r == mmap_bytes(*m)[i as int],
{
    m[i]
}

/// Relies on `memmap2::Mmap`'s `Deref` to `[u8]`: a range of the mapped
/// bytes, copied out.
#[verifier::external_body]
fn mmap_range(m: &memmap2::Mmap, start: usize, end: usize) -> (r: Vec<u8>)
    requires
        start <= end <= mmap_bytes(*m).len(),
    ensures
        r@ == mmap_bytes(*m).subrange(start as int, end as int),
{
    m[start..end].to_vec()
}

/// Relies on `core::str::from_utf8`: it succeeds exactly on valid UTF-8
/// and decodes it.
#[verifier::external_body]
pub(crate) fn decode_utf8_bytes(bytes: &[u8]) -> (r: Option<String>)
    ensures
        r is Some <==> valid_utf8(bytes@),
        r matches Some(s) ==> s@ == decode_utf8(bytes@),
{
    match core::str::from_utf8(bytes) {
        Ok(s) => Some(s.to_owned()),
        Err(_) => None,
    }
}

/// The start offsets contributed by newlines among `bytes[..upto]`: the
/// offset just past each `\n`, except one that would sit at end of file.
pub open spec fn newline_starts(bytes: Seq<u8>, upto: int) -> Seq<int>
    decreases upto,
{
    if upto <= 0 {
        Seq::empty()
    } else {
        newline_starts(bytes, upto - 1) + if bytes[upto - 1] == 10 && upto < bytes.len() {
            seq![upto]
        } else {
            Seq::empty()
        }
    }
}

/// All line start offsets of a file: offset 0, then one start per newline
/// not at end of file.
pub open spec fn line_starts(bytes: Seq<u8>) -> Seq<int> {
    seq![0] + newline_starts(bytes, bytes.len() as int)
}

pub proof fn lemma_newline_starts(bytes: Seq<u8>, upto: int)
    requires
        0 <= upto <= bytes.len(),
    ensures
        forall|i: int| 0 <= i < newline_starts(bytes, upto).len() ==> {
            let e = #[trigger] newline_starts(bytes, upto)[i];
            1 <= e <= upto && e < bytes.len() && bytes[e - 1] == 10
        },
        forall|i: int, j: int|
            0 <= i < j < newline_starts(bytes, upto).len() ==> newline_starts(bytes, upto)[i]
                < newline_starts(bytes, upto)[j],
    decreases upto,
{
    if upto > 0 {
        lemma_newline_starts(bytes, upto - 1);
        let prev = newline_starts(bytes, upto - 1);
        let cur = newline_starts(bytes, upto);
        if bytes[upto - 1] == 10 && upto < bytes.len() {
            assert(cur =~= prev.push(upto));
            assert forall|i: int| 0 <= i < cur.len() implies {
                let e = #[trigger] cur[i];
                1 <= e <= upto && e < bytes.len() && bytes[e - 1] == 10
            } by {
                if i < prev.len() {
                    assert(cur[i] == prev[i]);
                } else {
                    assert(cur[i] == upto);
                }
            }
            assert forall|i: int, j: int| 0 <= i < j < cur.len() implies cur[i] < cur[j] by {
                if j < prev.len() {
                    assert(cur[i] == prev[i] && cur[j] == prev[j]);
                } else {
                    assert(cur[j] == upto);
                    assert(cur[i] == prev[i]);
                    assert(prev[i] <= upto - 1);
                }
            }
        } else {
            assert(cur =~= prev);
        }
    }
}

pub proof fn lemma_line_starts(bytes: Seq<u8>)
    ensures
        line_starts(bytes).len() >= 1,
        line_starts(bytes)[0] == 0,
        forall|i: int| 0 <= i < line_starts(bytes).len() ==> 0 <= #[trigger] line_starts(
            bytes,
        )[i] <= bytes.len(),
        forall|i: int| 1 <= i < line_starts(bytes).len() ==> #[trigger] line_starts(bytes)[i]
            < bytes.len(),
        forall|i: int, j: int|
            0 <= i < j < line_starts(bytes).len() ==> line_starts(bytes)[i] < line_starts(
                bytes,
            )[j],
{
    lemma_newline_starts(bytes, bytes.len() as int);
}

/// The end of line `i`: the next line's start, or the end of the file for
/// the last line.
pub open spec fn line_end(bytes: Seq<u8>, i: int) -> int {
    let starts = line_starts(bytes);
    if i + 1 < starts.len() {
        starts[i + 1]
    } else {
        bytes.len() as int
    }
}

/// A line's bytes with one trailing `\n` and then one trailing `\r`
/// removed.
pub open spec fn strip_eol(b: Seq<u8>) -> Seq<u8> {
    let b1 = if b.len() > 0 && b.last() == 10 {
        b.drop_last()
    } else {
        b
    };
    if b1.len() > 0 && b1.last() == 13 {
        b1.drop_last()
    } else {
        b1
    }
}

/// The decoded text of line `i`, or `None` where its bytes are not valid
/// UTF-8.
pub open spec fn file_line_text(bytes: Seq<u8>, i: int) -> Option<Seq<char>> {
    let starts = line_starts(bytes);
    let raw = bytes.subrange(starts[i], line_end(bytes, i));
    let stripped = strip_eol(raw);
    if valid_utf8(stripped) {
        Some(decode_utf8(stripped))
    } else {
        None
    }
}

/// The whole file as decoded lines.
pub open spec fn file_lines(bytes: Seq<u8>) -> Seq<Option<Seq<char>>> {
    Seq::new(line_starts(bytes).len(), |i| file_line_text(bytes, i))
}

/// The local backend: a memory-mapped file and its line-start table,
/// built once at open.
pub struct MappedFile {
    mmap: memmap2::Mmap,
    line_offsets: Vec<usize>,
    path_display: String,
}

impl MappedFile {
    /// The mapped bytes.
    pub closed spec fn bytes(&self) -> Seq<u8> {
        mmap_bytes(self.mmap)
    }

    /// Index a mapped file: one linear scan recording the offset just past
    /// every newline.
    pub fn from_mmap(mmap: memmap2::Mmap, path_display: String) -> (r: Self)
        ensures
            r.wf(),
            r.bytes() == mmap_bytes(mmap),
            r.lines_model() == file_lines(mmap_bytes(mmap)),
            r.display_model() == path_display@,
            r.size_model() == Some(mmap_bytes(mmap).len() as u64),
    {
        let ghost bytes = mmap_bytes(mmap);
        let n = mmap_len(&mmap);
        let mut line_offsets: Vec<usize> = Vec::new();
        line_offsets.push(0);
        proof {
            assert(line_offsets@.map_values(|x: usize| x as int) =~= seq![0]
                + newline_starts(bytes, 0));
        }
        let mut i: usize = 0;
        while i < n
            invariant
                n == bytes.len(),
                bytes == mmap_bytes(mmap),
                i <= n,
                line_offsets@.map_values(|x: usize| x as int) == seq![0int] + newline_starts(
                    bytes,
                    i as int,
                ),
            decreases n - i,
        {
            let ghost pre = line_offsets@;
            if mmap_byte(&mmap, i) == 10 {
                let next = i + 1;
                if next < n {
                    line_offsets.push(next);
                }
            }
            proof {
                if bytes[i as int] == 10 && i + 1 < n {
                    assert(line_offsets@.map_values(|x: usize| x as int) =~= pre.map_values(
                        |x: usize| x as int,
                    ).push(i + 1));
                    assert(newline_starts(bytes, i + 1) =~= newline_starts(bytes, i as int)
                        + seq![i + 1]);
                    assert(line_offsets@.map_values(|x: usize| x as int) =~= seq![0int]
                        + newline_starts(bytes, i + 1));
                } else {
                    assert(newline_starts(bytes, i + 1) =~= newline_starts(bytes, i as int));
                }
            }
            i += 1;
        }
        let r = MappedFile { mmap, line_offsets, path_display };
        proof {
            assert(r.offsets_model() =~= line_starts(bytes));
        }
        r
    }

    /// The line-start table as mathematical offsets.
    pub closed spec fn offsets_model(&self) -> Seq<int> {
        self.line_offsets@.map_values(|x: usize| x as int)
    }

    /// Fetch and decode one line: its byte range with the line ending
    /// stripped, `None` out of range or on a line that is not UTF-8.
    fn get_line_internal(&self, line_num: usize) -> (r: Option<String>)
        requires
            self.wf(),
        ensures
            r is Some <==> line_num < self.lines_model().len() && self.lines_model()[line_num as int]
                is Some,
            r matches Some(t) ==> self.lines_model()[line_num as int] == Some(t@),
    {
        proof {
            lemma_line_starts(self.bytes());
        }
        if line_num >= self.line_offsets.len() {
            return None;
        }
        let start = self.line_offsets[line_num];
        let end = if line_num + 1 < self.line_offsets.len() {
            self.line_offsets[line_num + 1]
        } else {
            mmap_len(&self.mmap)
        };
        let mut raw = mmap_range(&self.mmap, start, end);
        let ghost raw0 = raw@;
        if raw.len() > 0 && raw[raw.len() - 1] == 10 {
            let _ = raw.pop();
        }
        let ghost raw1 = raw@;
        if raw.len() > 0 && raw[raw.len() - 1] == 13 {
            let _ = raw.pop();
        }
        proof {
            assert(raw@ == strip_eol(raw0));
        }
        decode_utf8_bytes(raw.as_slice())
    }
}

impl FileSource for MappedFile {
    open spec fn lines_model(&self) -> Seq<Option<Seq<char>>> {
        file_lines(self.bytes())
    }

    closed spec fn display_model(&self) -> Seq<char> {
        self.path_display@
    }

    open spec fn size_model(&self) -> Option<u64> {
        Some(self.bytes().len() as u64)
    }

    open spec fn wf(&self) -> bool {
        self.offsets_model() == line_starts(self.bytes())
    }

    fn line_count(&self) -> (r: usize) {
        proof {
            lemma_line_starts(self.bytes());
        }
        self.line_offsets.len()
    }

    fn file_size(&self) -> (r: Result<u64, PogError>) {
        Ok(mmap_len(&self.mmap) as u64)
    }

    /// Local reads cannot fail: an undecodable or out-of-range line is
    /// absent, never an error.
    fn get_line(&mut self, line_num: usize) -> (r: Result<Option<String>, PogError>)
        ensures
            r is Ok,
    {
        Ok(self.get_line_internal(line_num))
    }

    /// Local reads cannot fail.
    fn get_lines(&mut self, start_line: usize, count: usize) -> (r: Result<
        Vec<(usize, String)>,
        PogError,
    >)
        ensures
            r is Ok,
    {
        let total = self.line_offsets.len();
        let end = if count < total && start_line <= total - count {
            start_line + count
        } else {
            total
        };
        let ghost model = self.lines_model();
        let mut lines: Vec<(usize, String)> = Vec::new();
        if end <= start_line {
            proof {
                assert(lines.deep_view() =~= present_lines(
                    model,
                    start_line as int,
                    vstd::math::min(start_line + count, model.len() as int),
                ));
            }
            return Ok(lines);
        }
        let mut i: usize = start_line;
        proof {
            assert(lines.deep_view() =~= present_lines(model, start_line as int, i as int));
        }
        while i < end
            invariant
                self.wf(),
                model == self.lines_model(),
                start_line <= i <= end,
                end <= model.len(),
                end == vstd::math::min(start_line + count, model.len() as int),
                lines.deep_view() == present_lines(model, start_line as int, i as int),
            decreases end - i,
        {
            let ghost pre = lines.deep_view();
            match self.get_line_internal(i) {
                Some(t) => {
                    let ghost tv = t@;
                    lines.push((i, t));
                    proof {
                        assert(lines.deep_view() =~= pre.push((i, tv)));
                        assert(present_lines(model, start_line as int, i + 1) =~= pre.push(
                            (i, tv),
                        ));
                    }
                },
                None => {
                    proof {
                        assert(present_lines(model, start_line as int, i + 1) == pre);
                    }
                },
            }
            i += 1;
        }
        Ok(lines)
    }

    fn display_name(&self) -> (r: &str) {
        self.path_display.as_str()
    }
}

} // verus!
