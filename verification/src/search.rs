//! The search engine: compiled patterns, per-line match collection, and the
//! state of an interactive search session.

use vstd::prelude::*;
use vstd::string::*;

use crate::file_source::{present_lines, FileSource};

verus! {

#[verifier::external_type_specification]
#[verifier::external_body]
pub struct ExRegex(regex::Regex);

/// Whether `pattern` is accepted by the regex compiler. Named because the
/// accepted grammar takes pages to state; it depends on the pattern alone.
pub uninterp spec fn regex_valid(pattern: Seq<char>) -> bool;

/// The successive non-overlapping matches of `pattern` on `text`, as
/// half-open byte-offset spans, leftmost first. Named because the match
/// semantics take pages to state; it depends on pattern and text alone.
pub uninterp spec fn regex_find_all(pattern: Seq<char>, text: Seq<char>) -> Seq<(usize, usize)>;

/// A compiled search pattern together with its source text.
pub struct CompiledPattern {
    re: regex::Regex,
    text: String,
}

impl CompiledPattern {
    /// The pattern text this value was compiled from.
    pub closed spec fn pattern(&self) -> Seq<char> {
        self.text@
    }

    /// Relies on `regex::Regex::new`: compilation succeeds exactly on the
    /// patterns the crate accepts, a function of the pattern text alone.
    #[verifier::external_body]
    pub fn compile(pattern: &str) -> (r: Result<CompiledPattern, String>)
        ensures
            r is Ok <==> regex_valid(pattern@),
            r matches Ok(cp) ==> cp.pattern() == pattern@,
    {
        match regex::Regex::new(pattern) {
            Ok(re) => Ok(CompiledPattern { re, text: pattern.to_owned() }),
            Err(e) => Err(format!("invalid regex: {}", e)),
        }
    }

    /// The pattern text, for re-display.
    pub fn pattern_text(&self) -> (r: &str)
        ensures
            r@ == self.pattern(),
    {
        self.text.as_str()
    }

    /// Relies on `regex::Regex::find_iter`: it yields the successive
    /// non-overlapping matches, each with `start() <= end()` byte offsets.
    #[verifier::external_body]
    pub fn find_all(&self, text: &str) -> (r: Vec<(usize, usize)>)
        ensures
            r@ == regex_find_all(self.pattern(), text@),
            forall|j: int| 0 <= j < r@.len() ==> #[trigger] r@[j].0 <= r@[j].1,
            forall|j: int| 0 <= j < r@.len() - 1 ==> #[trigger] r@[j].1 <= r@[j + 1].0,
    {
        self.re.find_iter(text).map(|m| (m.start(), m.end())).collect()
    }
}

/// One match occurrence: a half-open byte-column range on one 0-based line.
#[derive(Debug, Clone, Copy, PartialEq, Eq, Structural)]
pub struct SearchMatch {
    pub line_num: usize,
    pub start_col: usize,
    pub end_col: usize,
}

/// Direction of an unbounded find-next scan.
#[derive(Debug, Clone, Copy, PartialEq, Eq, Structural)]
pub enum SearchDirection {
    Forward,
    Backward,
}

/// The matches of `pattern` on one line, in match order.
pub open spec fn line_matches(pattern: Seq<char>, line_num: usize, text: Seq<char>) -> Seq<
    SearchMatch,
> {
    regex_find_all(pattern, text).map_values(
        |p: (usize, usize)| SearchMatch { line_num, start_col: p.0, end_col: p.1 },
    )
}

/// The matches of `pattern` over a sequence of numbered lines, grouped by
/// line in order, each line's matches in match order.
pub open spec fn matches_of_lines(
    pattern: Seq<char>,
    lines: Seq<(usize, Seq<char>)>,
) -> Seq<SearchMatch>
    decreases lines.len(),
{
    if lines.len() == 0 {
        Seq::empty()
    } else {
        matches_of_lines(pattern, lines.drop_last()) + line_matches(
            pattern,
            lines.last().0,
            lines.last().1,
        )
    }
}

/// Run the pattern against each numbered line, collecting every match with
/// its byte-column span.
pub fn search_lines(pattern: &CompiledPattern, lines: &Vec<(usize, String)>) -> (r: Vec<
    SearchMatch,
>)
    ensures
        r@ == matches_of_lines(pattern.pattern(), lines.deep_view()),
{
    let ghost lv = lines.deep_view();
    let mut r: Vec<SearchMatch> = Vec::new();
    let mut i: usize = 0;
    proof {
        assert(lv.take(0) =~= Seq::<(usize, Seq<char>)>::empty());
        assert(r@ =~= matches_of_lines(pattern.pattern(), lv.take(0)));
    }
    while i < lines.len()
        invariant
            lv == lines.deep_view(),
            lv.len() == lines@.len(),
            forall|j: int| 0 <= j < lv.len() ==>
                lv[j] == (lines@[j].0, lines@[j].1@),
            i <= lines@.len(),
            r@ == matches_of_lines(pattern.pattern(), lv.take(i as int)),
        decreases lines@.len() - i,
    {
        let line_num = lines[i].0;
        let spans = pattern.find_all(lines[i].1.as_str());
        let ghost lm = line_matches(pattern.pattern(), line_num, lv[i as int].1);
        let ghost pre = r@;
        let mut k: usize = 0;
        proof {
            assert(pre + lm.take(0) =~= pre);
        }
        while k < spans.len()
            invariant
                lv == lines.deep_view(),
                i < lines@.len(),
                line_num == lines@[i as int].0,
                spans@ == regex_find_all(pattern.pattern(), lv[i as int].1),
                lm == line_matches(pattern.pattern(), line_num, lv[i as int].1),
                k <= spans@.len(),
                lm.len() == spans@.len(),
                r@ == pre + lm.take(k as int),
            decreases spans@.len() - k,
        {
            let (a, b) = spans[k];
            r.push(SearchMatch { line_num, start_col: a, end_col: b });
            proof {
                assert(lm[k as int] == SearchMatch {
                    line_num,
                    start_col: spans@[k as int].0,
                    end_col: spans@[k as int].1,
                });
                assert(pre + lm.take(k + 1) =~= (pre + lm.take(k as int)).push(lm[k as int]));
            }
            k += 1;
        }
        proof {
            assert(lm.take(lm.len() as int) =~= lm);
            assert(lv.take(i + 1).drop_last() =~= lv.take(i as int));
            assert(lv.take(i + 1).last() == lv[i as int]);
            assert(r@ == matches_of_lines(pattern.pattern(), lv.take(i + 1)));
        }
        i += 1;
    }
    proof {
        assert(lv.take(lv.len() as int) =~= lv);
    }
    r
}

/// The state of an interactive search session.
pub struct SearchState {
    pub pattern: Option<CompiledPattern>,
    pub pattern_str: String,
    pub viewport_matches: Vec<SearchMatch>,
    pub current_match_index: Option<usize>,
    pub last_searched_range: Option<(usize, usize)>,
    pub is_active: bool,
}

impl Default for SearchState {
    /// The inactive session with nothing recorded.
    fn default() -> (r: Self)
        ensures
            r.wf(),
            r.is_initial(),
    {
        SearchState::new()
    }
}

impl SearchState {
    /// Session invariant: a pattern is held exactly while the session is
    /// active, it was compiled from the stored pattern text, and the
    /// current-match index stays inside the viewport matches.
    pub open spec fn wf(&self) -> bool {
        &&& (self.is_active <==> self.pattern is Some)
        &&& (self.pattern matches Some(cp) ==> cp.pattern() == self.pattern_str@)
        &&& (self.current_match_index matches Some(i) ==> i < self.viewport_matches@.len())
    }

    /// The inactive session with nothing recorded.
    pub open spec fn is_initial(&self) -> bool {
        &&& self.pattern is None
        &&& self.pattern_str@.len() == 0
        &&& self.viewport_matches@.len() == 0
        &&& self.current_match_index is None
        &&& self.last_searched_range is None
        &&& !self.is_active
    }

    pub fn new() -> (r: Self)
        ensures
            r.wf(),
            r.is_initial(),
    {
        SearchState {
            pattern: None,
            pattern_str: String::new(),
            viewport_matches: Vec::new(),
            current_match_index: None,
            last_searched_range: None,
            is_active: false,
        }
    }

    /// Reset to the initial inactive state.
    pub fn clear(&mut self)
        ensures
            final(self).wf(),
            final(self).is_initial(),
    {
        self.pattern = None;
        self.pattern_str = String::new();
        self.viewport_matches = Vec::new();
        self.current_match_index = None;
        self.last_searched_range = None;
        self.is_active = false;
    }

    /// Compile and install a pattern, activating the session and resetting
    /// matches and the searched range; a malformed pattern is rejected with
    /// a message and leaves the session untouched.
    pub fn set_pattern(&mut self, pattern_str: &str) -> (r: Result<(), String>)
        requires
            old(self).wf(),
        ensures
            final(self).wf(),
            r is Ok <==> regex_valid(pattern_str@),
            r is Ok ==> {
                &&& final(self).is_active
                &&& final(self).pattern matches Some(cp) && cp.pattern() == pattern_str@
                &&& final(self).pattern_str@ == pattern_str@
                &&& final(self).viewport_matches@.len() == 0
                &&& final(self).current_match_index is None
                &&& final(self).last_searched_range is None
            },
            r is Err ==> *final(self) == *old(self),
    {
        match CompiledPattern::compile(pattern_str) {
            Ok(cp) => {
                self.pattern = Some(cp);
                self.pattern_str = pattern_str.to_owned();
                self.viewport_matches = Vec::new();
                self.current_match_index = None;
                self.last_searched_range = None;
                self.is_active = true;
                Ok(())
            },
            Err(e) => Err(e),
        }
    }

    /// Replace the viewport matches wholesale and record the searched
    /// range. The current match is kept if its index is still in bounds,
    /// else the first match is selected when one exists.
    pub fn update_matches(&mut self, matches: Vec<SearchMatch>, searched_range: (usize, usize))
        requires
            old(self).wf(),
        ensures
            final(self).wf(),
            final(self).viewport_matches == matches,
            final(self).last_searched_range == Some(searched_range),
            final(self).pattern == old(self).pattern,
            final(self).pattern_str == old(self).pattern_str,
            final(self).is_active == old(self).is_active,
            final(self).current_match_index == if matches@.len() == 0 {
                Option::<usize>::None
            } else {
                match old(self).current_match_index {
                    Some(i) => if i < matches@.len() {
                        Some(i)
                    } else {
                        Some(0usize)
                    },
                    None => Some(0usize),
                }
            },
    {
        let new_index: Option<usize> = if matches.len() == 0 {
            None
        } else {
            match self.current_match_index {
                Some(i) => if i < matches.len() {
                    Some(i)
                } else {
                    Some(0)
                },
                None => Some(0),
            }
        };
        self.viewport_matches = matches;
        self.current_match_index = new_index;
        self.last_searched_range = Some(searched_range);
    }

    /// The currently selected match, if any.
    pub fn current_match(&self) -> (r: Option<SearchMatch>)
        requires
            self.wf(),
        ensures
            r == match self.current_match_index {
                Some(i) => Some(self.viewport_matches@[i as int]),
                None => Option::<SearchMatch>::None,
            },
    {
        match self.current_match_index {
            Some(i) => Some(self.viewport_matches[i]),
            None => None,
        }
    }

    /// Advance the current match cyclically within the viewport.
    pub fn next_match_in_viewport(&mut self) -> (r: Option<SearchMatch>)
        requires
            old(self).wf(),
        ensures
            final(self).wf(),
            old(self).viewport_matches@.len() == 0 ==> r is None && *final(self) == *old(self),
            old(self).viewport_matches@.len() > 0 ==> {
                let n = old(self).viewport_matches@.len() as int;
                let new_index = match old(self).current_match_index {
                    Some(i) => (i + 1) % n,
                    None => 0,
                };
                &&& final(self).current_match_index == Some(new_index as usize)
                &&& r == Some(old(self).viewport_matches@[new_index])
                &&& final(self).viewport_matches == old(self).viewport_matches
                &&& final(self).pattern == old(self).pattern
                &&& final(self).pattern_str == old(self).pattern_str
                &&& final(self).last_searched_range == old(self).last_searched_range
                &&& final(self).is_active == old(self).is_active
            },
    {
        let n = self.viewport_matches.len();
        if n == 0 {
            return None;
        }
        let new_index = match self.current_match_index {
            Some(i) => (i + 1) % n,
            None => 0,
        };
        self.current_match_index = Some(new_index);
        Some(self.viewport_matches[new_index])
    }

    /// Step the current match back cyclically within the viewport.
    pub fn prev_match_in_viewport(&mut self) -> (r: Option<SearchMatch>)
        requires
            old(self).wf(),
        ensures
            final(self).wf(),
            old(self).viewport_matches@.len() == 0 ==> r is None && *final(self) == *old(self),
            old(self).viewport_matches@.len() > 0 ==> {
                let n = old(self).viewport_matches@.len() as int;
                let new_index = match old(self).current_match_index {
                    Some(i) => if i == 0 {
                        n - 1
                    } else {
                        i - 1
                    },
                    None => n - 1,
                };
                &&& final(self).current_match_index == Some(new_index as usize)
                &&& r == Some(old(self).viewport_matches@[new_index])
                &&& final(self).viewport_matches == old(self).viewport_matches
                &&& final(self).pattern == old(self).pattern
                &&& final(self).pattern_str == old(self).pattern_str
                &&& final(self).last_searched_range == old(self).last_searched_range
                &&& final(self).is_active == old(self).is_active
            },
    {
        let n = self.viewport_matches.len();
        if n == 0 {
            return None;
        }
        let new_index = match self.current_match_index {
            Some(i) => if i == 0 {
                n - 1
            } else {
                i - 1
            },
            None => n - 1,
        };
        self.current_match_index = Some(new_index);
        Some(self.viewport_matches[new_index])
    }

    /// Whether the window `[viewport_start, viewport_start + viewport_size)`
    /// calls for a fresh windowed search: always for an inactive session or
    /// one that has not searched yet, and otherwise when the window leaves
    /// the searched range less a hysteresis margin of half the buffer.
    pub open spec fn spec_needs_research(
        &self,
        viewport_start: usize,
        viewport_size: usize,
        buffer: usize,
    ) -> bool {
        if !self.is_active {
            true
        } else {
            match self.last_searched_range {
                None => true,
                Some((s, e)) => {
                    let half = buffer as int / 2;
                    let low = if s + half <= usize::MAX { s + half } else { usize::MAX as int };
                    let high = if e - half >= 0 { e - half } else { 0 };
                    viewport_start < low || viewport_start + viewport_size > high
                },
            }
        }
    }

    /// Decide whether the visible window has moved far enough that the
    /// session must search again.
    pub fn needs_research(&self, viewport_start: usize, viewport_size: usize, buffer: usize) -> (b:
        bool)
        requires
            self.wf(),
            viewport_start + viewport_size <= usize::MAX,
        ensures
            b == self.spec_needs_research(viewport_start, viewport_size, buffer),
    {
        if !self.is_active {
            return true;
        }
        match self.last_searched_range {
            None => true,
            Some((s, e)) => {
                let half = buffer / 2;
                viewport_start < s.saturating_add(half) || viewport_start + viewport_size
                    > e.saturating_sub(half)
            },
        }
    }
}

/// How many lines one find-next stride covers.
pub const SEARCH_CHUNK_SIZE: usize = 1000;

/// Scan outward from `from_line` in fixed strides for the first line that
/// matches the pattern: forward over `(from_line, line_count)` in
/// increasing order, or backward over `[0, from_line)` in decreasing
/// order. A stride that cannot be fetched is skipped. The result, if any,
/// is the first match of the pattern on the found line's text.
pub fn find_next<S: FileSource>(
    source: &mut S,
    pattern: &CompiledPattern,
    from_line: usize,
    direction: SearchDirection,
) -> (r: Option<SearchMatch>)
    requires
        old(source).wf(),
    ensures
        final(source).wf(),
        final(source).lines_model().len() == old(source).lines_model().len(),
        final(source).display_model() == old(source).display_model(),
        final(source).size_model() == old(source).size_model(),
        r matches Some(m) ==> {
            &&& direction is Forward ==> from_line < m.line_num && m.line_num
                < final(source).lines_model().len()
            &&& direction is Backward ==> m.line_num < from_line
            &&& m.line_num < final(source).lines_model().len()
            &&& final(source).lines_model()[m.line_num as int] matches Some(t)
                && regex_find_all(pattern.pattern(), t).len() > 0
                && (m.start_col, m.end_col) == regex_find_all(pattern.pattern(), t)[0]
        },
{
    let total = source.line_count();
    match direction {
        SearchDirection::Forward => {
            if from_line >= total {
                return None;
            }
            let mut current = from_line + 1;
            while current < total
                invariant
                    source.wf(),
                    source.lines_model().len() == old(source).lines_model().len(),
                    source.display_model() == old(source).display_model(),
                    source.size_model() == old(source).size_model(),
                    total == source.lines_model().len(),
                    from_line < current,
                    direction is Forward,
                decreases total - current,
            {
                let end = if SEARCH_CHUNK_SIZE < total && current <= total - SEARCH_CHUNK_SIZE {
                    current + SEARCH_CHUNK_SIZE
                } else {
                    total
                };
                match source.get_lines(current, end - current) {
                    Ok(lines) => {
                        if let Some(m) = first_match_in(pattern, &lines) {
                            proof {
                                let model = source.lines_model();
                                let e = vstd::math::min(
                                    current + (end - current),
                                    model.len() as int,
                                );
                                crate::file_source::lemma_present_lines_bounds(
                                    model,
                                    current as int,
                                    e,
                                );
                                let dv = lines.deep_view();
                                let j = choose|j: int|
                                    {
                                        &&& 0 <= j < dv.len()
                                        &&& #[trigger] dv[j].0 == m.line_num
                                        &&& regex_find_all(pattern.pattern(), dv[j].1).len() > 0
                                        &&& (m.start_col, m.end_col) == regex_find_all(
                                            pattern.pattern(),
                                            dv[j].1,
                                        )[0]
                                    };
                                assert(present_lines(model, current as int, e)[j].0
                                    == m.line_num);
                                assert(present_lines(model, current as int, e)[j].1 == dv[j].1);
                                assert(model[m.line_num as int] == Some(dv[j].1));
                            }
                            return Some(m);
                        }
                    },
                    Err(_) => {},
                }
                current = end;
            }
            None
        },
        SearchDirection::Backward => {
            let mut current_end = from_line;
            while current_end > 0
                invariant
                    source.wf(),
                    source.lines_model().len() == old(source).lines_model().len(),
                    source.display_model() == old(source).display_model(),
                    source.size_model() == old(source).size_model(),
                    current_end <= from_line,
                    direction is Backward,
                decreases current_end,
            {
                let start = current_end.saturating_sub(SEARCH_CHUNK_SIZE);
                match source.get_lines(start, current_end - start) {
                    Ok(lines) => {
                        if let Some(m) = last_match_in(pattern, &lines) {
                            proof {
                                let model = source.lines_model();
                                let e = vstd::math::min(
                                    start + (current_end - start),
                                    model.len() as int,
                                );
                                crate::file_source::lemma_present_lines_bounds(
                                    model,
                                    start as int,
                                    e,
                                );
                                let dv = lines.deep_view();
                                let j = choose|j: int|
                                    {
                                        &&& 0 <= j < dv.len()
                                        &&& #[trigger] dv[j].0 == m.line_num
                                        &&& regex_find_all(pattern.pattern(), dv[j].1).len() > 0
                                        &&& (m.start_col, m.end_col) == regex_find_all(
                                            pattern.pattern(),
                                            dv[j].1,
                                        )[0]
                                    };
                                assert(present_lines(model, start as int, e)[j].0
                                    == m.line_num);
                                assert(present_lines(model, start as int, e)[j].1 == dv[j].1);
                                assert(model[m.line_num as int] == Some(dv[j].1));
                            }
                            return Some(m);
                        }
                    },
                    Err(_) => {},
                }
                if start == 0 {
                    return None;
                }
                current_end = start;
            }
            None
        },
    }
}

/// The first line of `lines`, scanning forward, on which the pattern
/// matches; the match is that line's first. `None` exactly when no line
/// matches.
fn first_match_in(pattern: &CompiledPattern, lines: &Vec<(usize, String)>) -> (r: Option<
    SearchMatch,
>)
    ensures
        r is Some <==> exists|j: int|
            0 <= j < lines.deep_view().len() && regex_find_all(
                pattern.pattern(),
                #[trigger] lines.deep_view()[j].1,
            ).len() > 0,
        r matches Some(m) ==> exists|j: int|
            {
                &&& 0 <= j < lines.deep_view().len()
                &&& #[trigger] lines.deep_view()[j].0 == m.line_num
                &&& regex_find_all(pattern.pattern(), lines.deep_view()[j].1).len() > 0
                &&& (m.start_col, m.end_col) == regex_find_all(
                    pattern.pattern(),
                    lines.deep_view()[j].1,
                )[0]
                &&& forall|j2: int| 0 <= j2 < j ==> regex_find_all(
                    pattern.pattern(),
                    #[trigger] lines.deep_view()[j2].1,
                ).len() == 0
            },
{
    let mut k: usize = 0;
    while k < lines.len()
        invariant
            k <= lines@.len(),
            lines.deep_view().len() == lines@.len(),
            forall|j: int| 0 <= j < lines@.len() ==> #[trigger] lines.deep_view()[j] == (
                lines@[j].0,
                lines@[j].1@,
            ),
            forall|j: int| 0 <= j < k ==> regex_find_all(
                pattern.pattern(),
                #[trigger] lines.deep_view()[j].1,
            ).len() == 0,
        decreases lines@.len() - k,
    {
        let spans = pattern.find_all(lines[k].1.as_str());
        if spans.len() > 0 {
            let (a, b) = spans[0];
            let m = SearchMatch { line_num: lines[k].0, start_col: a, end_col: b };
            proof {
                assert(lines.deep_view()[k as int].0 == m.line_num);
                let t = lines.deep_view()[k as int].1;
                assert(regex_find_all(pattern.pattern(), t).len() > 0);
                assert((m.start_col, m.end_col) == regex_find_all(pattern.pattern(), t)[0]);
            }
            return Some(m);
        }
        k += 1;
    }
    None
}

/// The last line of `lines`, scanning backward, on which the pattern
/// matches; the match is that line's first. `None` exactly when no line
/// matches.
fn last_match_in(pattern: &CompiledPattern, lines: &Vec<(usize, String)>) -> (r: Option<
    SearchMatch,
>)
    ensures
        r is Some <==> exists|j: int|
            0 <= j < lines.deep_view().len() && regex_find_all(
                pattern.pattern(),
                #[trigger] lines.deep_view()[j].1,
            ).len() > 0,
        r matches Some(m) ==> exists|j: int|
            {
                &&& 0 <= j < lines.deep_view().len()
                &&& #[trigger] lines.deep_view()[j].0 == m.line_num
                &&& regex_find_all(pattern.pattern(), lines.deep_view()[j].1).len() > 0
                &&& (m.start_col, m.end_col) == regex_find_all(
                    pattern.pattern(),
                    lines.deep_view()[j].1,
                )[0]
                &&& forall|j2: int| j < j2 < lines.deep_view().len() ==> regex_find_all(
                    pattern.pattern(),
                    #[trigger] lines.deep_view()[j2].1,
                ).len() == 0
            },
{
    let mut k = lines.len();
    while k > 0
        invariant
            k <= lines@.len(),
            lines.deep_view().len() == lines@.len(),
            forall|j: int| 0 <= j < lines@.len() ==> #[trigger] lines.deep_view()[j] == (
                lines@[j].0,
                lines@[j].1@,
            ),
            forall|j: int| k <= j < lines@.len() ==> regex_find_all(
                pattern.pattern(),
                #[trigger] lines.deep_view()[j].1,
            ).len() == 0,
        decreases k,
    {
        k -= 1;
        let spans = pattern.find_all(lines[k].1.as_str());
        if spans.len() > 0 {
            let (a, b) = spans[0];
            let m = SearchMatch { line_num: lines[k].0, start_col: a, end_col: b };
            proof {
                assert(lines.deep_view()[k as int].0 == m.line_num);
                let t = lines.deep_view()[k as int].1;
                assert(regex_find_all(pattern.pattern(), t).len() > 0);
                assert((m.start_col, m.end_col) == regex_find_all(pattern.pattern(), t)[0]);
            }
            return Some(m);
        }
    }
    None
}

} // verus!
