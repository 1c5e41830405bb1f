//! Manual line markings (full-line colors and column-range regions) and the
//! `host:path` form of file locations.

use vstd::prelude::*;
use vstd::string::*;

use crate::text::find_char;

verus! {

/// A colored column range on one line; columns are 0-based, the end
/// exclusive.
#[derive(Debug, Clone, PartialEq)]
pub struct Region {
    pub start_col: usize,
    pub end_col: usize,
    pub color: String,
}

/// The markings of one line: an optional full-line color plus column
/// regions kept ordered by start column.
#[derive(Debug, Clone)]
pub struct LineMarkings {
    pub full_line_color: Option<String>,
    pub regions: Vec<Region>,
}

/// Whether a stored region survives marking `[start_col, end_col)`: only
/// regions it does not overlap are kept.
pub open spec fn outside_span(r: Region, start_col: usize, end_col: usize) -> bool {
    r.end_col <= start_col || r.start_col >= end_col
}

/// The regions that survive marking `[start_col, end_col)`, in their
/// stored order.
pub open spec fn surviving_regions(rs: Seq<Region>, start_col: usize, end_col: usize) -> Seq<Region>
    decreases rs.len(),
{
    if rs.len() == 0 {
        rs
    } else {
        let rest = surviving_regions(rs.drop_last(), start_col, end_col);
        if outside_span(rs.last(), start_col, end_col) {
            rest.push(rs.last())
        } else {
            rest
        }
    }
}

/// The regions left after removing the one covering exactly
/// `[start_col, end_col)`, in their stored order.
pub open spec fn regions_without(rs: Seq<Region>, start_col: usize, end_col: usize) -> Seq<Region>
    decreases rs.len(),
{
    if rs.len() == 0 {
        rs
    } else {
        let rest = regions_without(rs.drop_last(), start_col, end_col);
        if rs.last().start_col != start_col || rs.last().end_col != end_col {
            rest.push(rs.last())
        } else {
            rest
        }
    }
}

/// Index before which a region starting at `start_col` is inserted: the
/// first position holding a region that starts strictly later.
pub open spec fn insert_pos(rs: Seq<Region>, start_col: usize) -> int
    decreases rs.len(),
{
    if rs.len() == 0 {
        0
    } else if rs[0].start_col > start_col {
        0
    } else {
        1 + insert_pos(rs.drop_first(), start_col)
    }
}

pub proof fn lemma_insert_pos(rs: Seq<Region>, start_col: usize)
    ensures
        0 <= insert_pos(rs, start_col) <= rs.len(),
        forall|j: int| 0 <= j < insert_pos(rs, start_col) ==> rs[j].start_col <= start_col,
        insert_pos(rs, start_col) < rs.len() ==>
            rs[insert_pos(rs, start_col)].start_col > start_col,
    decreases rs.len(),
{
    if rs.len() > 0 && !(rs[0].start_col > start_col) {
        lemma_insert_pos(rs.drop_first(), start_col);
        assert forall|j: int| 0 <= j < insert_pos(rs, start_col) implies
            rs[j].start_col <= start_col by {
            if j > 0 {
                assert(rs.drop_first()[j - 1] == rs[j]);
            }
        }
    }
}

/// Find where a region starting at `start_col` belongs in `rs`.
fn region_insert_pos(rs: &Vec<Region>, start_col: usize) -> (p: usize)
    ensures
        p as int == insert_pos(rs@, start_col),
{
    let n = rs.len();
    let mut p: usize = 0;
    proof {
        assert(rs@.skip(0) =~= rs@);
    }
    while p < n
        invariant
            n == rs@.len(),
            p <= n,
            insert_pos(rs@, start_col) == p + insert_pos(rs@.skip(p as int), start_col),
        decreases n - p,
    {
        proof {
            assert(rs@.skip(p as int)[0] == rs@[p as int]);
        }
        if rs[p].start_col > start_col {
            return p;
        }
        proof {
            assert(rs@.skip(p as int).drop_first() =~= rs@.skip(p + 1));
        }
        p += 1;
    }
    proof {
        assert(rs@.skip(p as int) =~= Seq::<Region>::empty());
    }
    p
}

impl Default for LineMarkings {
    /// A line with no markings at all.
    fn default() -> (r: Self)
        ensures
            r.full_line_color is None,
            r.regions@.len() == 0,
    {
        LineMarkings { full_line_color: None, regions: Vec::new() }
    }
}

impl LineMarkings {
    pub fn is_empty(&self) -> (b: bool)
        ensures
            b == (self.full_line_color is None && self.regions@.len() == 0),
    {
        self.full_line_color.is_none() && self.regions.len() == 0
    }

    /// Color the whole line, leaving region marks alone.
    pub fn set_full_line(&mut self, color: String)
        ensures
            final(self).full_line_color matches Some(c) && c@ == color@,
            final(self).regions == old(self).regions,
    {
        self.full_line_color = Some(color);
    }

    /// Mark the columns `[start_col, end_col)`: regions overlapping the new
    /// span are dropped, and the new region is placed so that start columns
    /// stay in order.
    pub fn add_region(&mut self, start_col: usize, end_col: usize, color: String)
        ensures
            final(self).full_line_color == old(self).full_line_color,
            ({
                let kept = surviving_regions(old(self).regions@, start_col, end_col);
                let p = insert_pos(kept, start_col);
                final(self).regions@ == kept.insert(
                    p,
                    Region { start_col, end_col, color: color },
                )
            }),
    {
        let ghost orig = self.regions@;
        let mut kept: Vec<Region> = Vec::new();
        let ghost mut i: int = 0;
        proof {
            assert(orig.take(0) =~= Seq::<Region>::empty());
            assert(kept@ =~= surviving_regions(orig.take(0), start_col, end_col));
            assert(self.regions@ =~= orig.skip(0));
        }
        while self.regions.len() > 0
            invariant
                0 <= i <= orig.len(),
                self.regions@ == orig.skip(i),
                kept@ == surviving_regions(orig.take(i), start_col, end_col),
                self.full_line_color == old(self).full_line_color,
            decreases self.regions@.len(),
        {
            let r = self.regions.remove(0);
            proof {
                assert(orig.skip(i)[0] == orig[i]);
                assert(orig.skip(i).remove(0) =~= orig.skip(i + 1));
            }
            let keep_it = r.end_col <= start_col || r.start_col >= end_col;
            if keep_it {
                kept.push(r);
            }
            proof {
                assert(orig.take(i + 1).drop_last() =~= orig.take(i));
                assert(orig.take(i + 1).last() == orig[i]);
                assert(outside_span(orig[i], start_col, end_col) == keep_it);
                assert(kept@ == surviving_regions(orig.take(i + 1), start_col, end_col));
                i = i + 1;
            }
        }
        proof {
            assert(orig.take(orig.len() as int) =~= orig);
        }
        let p = region_insert_pos(&kept, start_col);
        proof {
            lemma_insert_pos(kept@, start_col);
        }
        kept.insert(p, Region { start_col, end_col, color });
        self.regions = kept;
    }

    /// Remove the region that covers exactly `[start_col, end_col)`, if one
    /// is stored; reports whether anything was removed.
    pub fn remove_region(&mut self, start_col: usize, end_col: usize) -> (removed: bool)
        ensures
            final(self).full_line_color == old(self).full_line_color,
            final(self).regions@ == regions_without(old(self).regions@, start_col, end_col),
            removed == (final(self).regions@.len() != old(self).regions@.len()),
    {
        let ghost orig = self.regions@;
        let before_len = self.regions.len();
        let mut kept: Vec<Region> = Vec::new();
        let ghost mut i: int = 0;
        proof {
            assert(orig.take(0) =~= Seq::<Region>::empty());
            assert(kept@ =~= regions_without(orig.take(0), start_col, end_col));
            assert(self.regions@ =~= orig.skip(0));
        }
        while self.regions.len() > 0
            invariant
                0 <= i <= orig.len(),
                before_len == orig.len(),
                self.regions@ == orig.skip(i),
                kept@ == regions_without(orig.take(i), start_col, end_col),
                self.full_line_color == old(self).full_line_color,
            decreases self.regions@.len(),
        {
            let r = self.regions.remove(0);
            proof {
                assert(orig.skip(i)[0] == orig[i]);
                assert(orig.skip(i).remove(0) =~= orig.skip(i + 1));
            }
            let keep_it = r.start_col != start_col || r.end_col != end_col;
            if keep_it {
                kept.push(r);
            }
            proof {
                assert(orig.take(i + 1).drop_last() =~= orig.take(i));
                assert(orig.take(i + 1).last() == orig[i]);
                assert(kept@ == regions_without(orig.take(i + 1), start_col, end_col));
                i = i + 1;
            }
        }
        proof {
            assert(orig.take(orig.len() as int) =~= orig);
        }
        let removed = kept.len() != before_len;
        self.regions = kept;
        removed
    }
}

/// Where a file lives: on the local filesystem, or on a remote host.
#[derive(Debug, Clone, PartialEq)]
pub enum FilePath {
    Local(String),
    Remote { host: String, path: String },
}

/// The mathematical value of a file location.
pub enum SpecFilePath {
    Local(Seq<char>),
    Remote { host: Seq<char>, path: Seq<char> },
}

impl View for FilePath {
    type V = SpecFilePath;

    open spec fn view(&self) -> SpecFilePath {
        match self {
            FilePath::Local(p) => SpecFilePath::Local(p@),
            FilePath::Remote { host, path } => SpecFilePath::Remote {
                host: host@,
                path: path@,
            },
        }
    }
}

/// An input names a remote file when its first `:` is followed by an
/// absolute path and the part before it holds no `/`; anything else is a
/// local path.
pub open spec fn parse_path_spec(s: Seq<char>) -> SpecFilePath {
    let k = find_char(s, ':');
    if k < s.len() && k + 1 < s.len() && s[k + 1] == '/' && find_char(s.take(k), '/')
        == k {
        SpecFilePath::Remote { host: s.take(k), path: s.skip(k + 1) }
    } else {
        SpecFilePath::Local(s)
    }
}

impl FilePath {
    /// Decide whether an input names a local or a remote file.
    pub fn parse(input: &str) -> (r: FilePath)
        ensures
            r@ == parse_path_spec(input@),
    {
        let n = input.unicode_len();
        match crate::text::index_of_char(input, ':') {
            Some(k) => {
                let host = input.substring_char(0, k).to_owned();
                proof {
                    assert(host@ =~= input@.take(k as int));
                }
                if k + 1 < n && input.get_char(k + 1) == '/'
                    && crate::text::index_of_char(host.as_str(), '/').is_none() {
                    let path = input.substring_char(k + 1, n).to_owned();
                    proof {
                        assert(path@ =~= input@.skip(k + 1));
                        assert(find_char(input@.take(k as int), '/') == k);
                    }
                    FilePath::Remote { host, path }
                } else {
                    proof {
                        if k + 1 < n && input@[k + 1] == '/' {
                            crate::text::lemma_find_char(input@.take(k as int), '/');
                        }
                    }
                    FilePath::Local(input.to_owned())
                }
            },
            None => FilePath::Local(input.to_owned()),
        }
    }
}

} // verus!
