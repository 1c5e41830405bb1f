//! The uniform file-access contract both backends implement: line-indexed
//! random access to a possibly huge, line-oriented file.

use vstd::prelude::*;

use crate::error::PogError;

verus! {

/// The numbered lines of `model` over `[start, end)` whose text is
/// available, in line order.
pub open spec fn present_lines(
    model: Seq<Option<Seq<char>>>,
    start: int,
    end: int,
) -> Seq<(usize, Seq<char>)>
    decreases end - start,
{
    if start >= end {
        Seq::empty()
    } else {
        present_lines(model, start, end - 1) + match model[end - 1] {
            Some(t) => seq![((end - 1) as usize, t)],
            None => Seq::empty(),
        }
    }
}

/// Line-indexed access to a file. A backend models the file as one text
/// per line (`None` where a line cannot be decoded or is not at hand);
/// reading may update internal state such as a cache, but never the number
/// of lines or the display name.
pub trait FileSource: Sized {
    /// One entry per line of the file.
    spec fn lines_model(&self) -> Seq<Option<Seq<char>>>;

    /// The stable human-readable identifier.
    spec fn display_model(&self) -> Seq<char>;

    /// The byte size, where the value itself determines it.
    spec fn size_model(&self) -> Option<u64>;

    /// The backend's internal invariant.
    spec fn wf(&self) -> bool;

    /// Total number of lines, fixed at open time.
    fn line_count(&self) -> (r: usize)
        requires
            self.wf(),
        ensures
            r == self.lines_model().len(),
    ;

    /// Byte length of the underlying file.
    fn file_size(&self) -> (r: Result<u64, PogError>)
        requires
            self.wf(),
        ensures
            self.size_model() matches Some(n) ==> r matches Ok(m) && m == n,
    ;

    /// A single line by 0-based number; out of range is `None`, not an
    /// error.
    fn get_line(&mut self, line_num: usize) -> (r: Result<Option<String>, PogError>)
        requires
            old(self).wf(),
        ensures
            final(self).wf(),
            final(self).lines_model().len() == old(self).lines_model().len(),
            final(self).display_model() == old(self).display_model(),
            final(self).size_model() == old(self).size_model(),
            line_num >= old(self).lines_model().len() ==> (r matches Ok(opt) && opt is None
                && *final(self) == *old(self)),
            r matches Ok(opt) ==> match opt {
                Some(t) => line_num < final(self).lines_model().len()
                    && final(self).lines_model()[line_num as int] == Some(t@),
                None => line_num >= final(self).lines_model().len()
                    || final(self).lines_model()[line_num as int] is None,
            },
    ;

    /// The available lines of `[start_line, start_line + count)` clipped to
    /// the file, in order; fewer than `count` entries near end of file.
    fn get_lines(&mut self, start_line: usize, count: usize) -> (r: Result<
        Vec<(usize, String)>,
        PogError,
    >)
        requires
            old(self).wf(),
        ensures
            final(self).wf(),
            final(self).lines_model().len() == old(self).lines_model().len(),
            final(self).display_model() == old(self).display_model(),
            final(self).size_model() == old(self).size_model(),
            start_line >= old(self).lines_model().len() || count == 0 ==> (r matches Ok(v)
                && v@.len() == 0 && *final(self) == *old(self)),
            r matches Ok(v) ==> v.deep_view() == present_lines(
                final(self).lines_model(),
                start_line as int,
                vstd::math::min(
                    start_line + count,
                    final(self).lines_model().len() as int,
                ),
            ),
    ;

    /// Stable human-readable identifier (path, or `host:path`).
    fn display_name(&self) -> (r: &str)
        requires
            self.wf(),
        ensures
            r@ == self.display_model(),
    ;
}

pub proof fn lemma_present_lines_bounds(model: Seq<Option<Seq<char>>>, start: int, end: int)
    requires
        0 <= start,
        end <= usize::MAX + 1,
    ensures
        forall|j: int| 0 <= j < present_lines(model, start, end).len() ==> start
            <= #[trigger] present_lines(model, start, end)[j].0 < end,
        forall|j: int| 0 <= j < present_lines(model, start, end).len() ==> model[
            #[trigger] present_lines(model, start, end)[j].0 as int
        ] == Some(present_lines(model, start, end)[j].1),
    decreases end - start,
{
    if start < end {
        lemma_present_lines_bounds(model, start, end - 1);
        let prev = present_lines(model, start, end - 1);
        let cur = present_lines(model, start, end);
        let tail = match model[end - 1] {
            Some(t) => seq![((end - 1) as usize, t)],
            None => Seq::<(usize, Seq<char>)>::empty(),
        };
        assert(cur == prev + tail);
        assert forall|j: int| 0 <= j < cur.len() implies start <= #[trigger] cur[j].0 < end
            && model[cur[j].0 as int] == Some(cur[j].1) by {
            assert(cur.len() == prev.len() + tail.len());
            if j < prev.len() {
                assert((prev + tail)[j] == prev[j]);
            } else {
                assert(tail.len() > 0);
                assert((prev + tail)[j] == tail[j - prev.len()]);
                assert(cur[j] == tail[0]);
                assert(cur[j].0 == (end - 1) as usize);
                assert(start <= end - 1 <= usize::MAX);
                assert(model[end - 1] == Some(cur[j].1));
            }
        }
    }
}

} // verus!
