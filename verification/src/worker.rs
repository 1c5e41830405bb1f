//! The request/response protocol between the presentation layer and the
//! core, and the handler that serves one request against a file source.

use vstd::prelude::*;

use crate::file_source::{present_lines, FileSource};
use crate::search::{
    find_next, matches_of_lines, regex_find_all, regex_valid, search_lines, CompiledPattern,
    SearchDirection, SearchMatch,
};

verus! {

/// A request to the core. Responses carry the request identifier back so a
/// caller can discard stale results.
pub enum FileRequest {
    GetLines { start: usize, count: usize, request_id: u64 },
    SearchRange {
        pattern: String,
        start_line: usize,
        end_line: usize,
        request_id: u64,
        /// Navigate to the first match only on an initial search, not on a
        /// re-search.
        navigate_to_first: bool,
    },
    FindNextMatch {
        pattern: String,
        from_line: usize,
        direction: SearchDirection,
        request_id: u64,
    },
}

/// A response from the core.
pub enum FileResponse {
    Lines { lines: Vec<(usize, String)>, request_id: u64, start: usize },
    Error { message: String },
    SearchResults {
        matches: Vec<SearchMatch>,
        request_id: u64,
        searched_range: (usize, usize),
        navigate_to_first: bool,
    },
    FoundMatch { match_info: Option<SearchMatch>, line_num: Option<usize>, request_id: u64 },
}

/// The number of lines a windowed search covers: the range clipped below
/// at its start.
pub open spec fn range_count(start_line: usize, end_line: usize) -> int {
    if end_line >= start_line {
        end_line - start_line
    } else {
        0
    }
}

/// Serve one request: fetch lines, run a windowed search, or scan for the
/// next match. A failure to fetch, or a malformed pattern, becomes an
/// `Error` response.
pub fn process_request<S: FileSource>(source: &mut S, request: FileRequest) -> (r: FileResponse)
    requires
        old(source).wf(),
    ensures
        final(source).wf(),
        final(source).lines_model().len() == old(source).lines_model().len(),
        final(source).display_model() == old(source).display_model(),
        final(source).size_model() == old(source).size_model(),
        request matches FileRequest::GetLines { start, count, request_id } ==> match r {
            FileResponse::Lines { lines, request_id: rid, start: s } => {
                &&& rid == request_id
                &&& s == start
                &&& lines.deep_view() == present_lines(
                    final(source).lines_model(),
                    start as int,
                    vstd::math::min(
                        start + count,
                        final(source).lines_model().len() as int,
                    ),
                )
            },
            FileResponse::Error { .. } => true,
            _ => false,
        },
        request matches FileRequest::SearchRange {
            pattern,
            start_line,
            end_line,
            request_id,
            navigate_to_first,
        } ==> match r {
            FileResponse::SearchResults {
                matches,
                request_id: rid,
                searched_range,
                navigate_to_first: nav,
            } => {
                &&& regex_valid(pattern@)
                &&& rid == request_id
                &&& nav == navigate_to_first
                &&& searched_range == (start_line, end_line)
                &&& matches@ == matches_of_lines(
                    pattern@,
                    present_lines(
                        final(source).lines_model(),
                        start_line as int,
                        vstd::math::min(
                            start_line + range_count(start_line, end_line),
                            final(source).lines_model().len() as int,
                        ),
                    ),
                )
            },
            FileResponse::Error { .. } => true,
            _ => false,
        },
        request matches FileRequest::FindNextMatch {
            pattern,
            from_line,
            direction,
            request_id,
        } ==> match r {
            FileResponse::FoundMatch { match_info, line_num, request_id: rid } => {
                &&& regex_valid(pattern@)
                &&& rid == request_id
                &&& line_num == match match_info {
                    Some(m) => Some(m.line_num),
                    None => None::<usize>,
                }
                &&& match_info matches Some(m) ==> {
                    &&& direction is Forward ==> from_line < m.line_num
                    &&& direction is Backward ==> m.line_num < from_line
                    &&& m.line_num < final(source).lines_model().len()
                    &&& final(source).lines_model()[m.line_num as int] matches Some(t)
                        && regex_find_all(pattern@, t).len() > 0
                        && (m.start_col, m.end_col) == regex_find_all(pattern@, t)[0]
                }
            },
            FileResponse::Error { .. } => !regex_valid(pattern@),
            _ => false,
        },
{
    match request {
        FileRequest::GetLines { start, count, request_id } => {
            match source.get_lines(start, count) {
                Ok(lines) => FileResponse::Lines { lines, request_id, start },
                Err(e) => FileResponse::Error { message: e.message() },
            }
        },
        FileRequest::SearchRange {
            pattern,
            start_line,
            end_line,
            request_id,
            navigate_to_first,
        } => {
            match CompiledPattern::compile(pattern.as_str()) {
                Ok(compiled) => {
                    let count = if end_line >= start_line {
                        end_line - start_line
                    } else {
                        0
                    };
                    match source.get_lines(start_line, count) {
                        Ok(lines) => {
                            let matches = search_lines(&compiled, &lines);
                            FileResponse::SearchResults {
                                matches,
                                request_id,
                                searched_range: (start_line, end_line),
                                navigate_to_first,
                            }
                        },
                        Err(e) => FileResponse::Error { message: e.message() },
                    }
                },
                Err(msg) => FileResponse::Error { message: msg },
            }
        },
        FileRequest::FindNextMatch { pattern, from_line, direction, request_id } => {
            match CompiledPattern::compile(pattern.as_str()) {
                Ok(compiled) => {
                    let found = find_next(source, &compiled, from_line, direction);
                    let line_num = match &found {
                        Some(m) => Some(m.line_num),
                        None => None,
                    };
                    FileResponse::FoundMatch { match_info: found, line_num, request_id }
                },
                Err(msg) => FileResponse::Error { message: msg },
            }
        },
    }
}

} // verus!
