//! The textual command grammar of the control protocol: parsing a command
//! line into a [`PogCommand`], and rendering a [`CommandResponse`].

use vstd::prelude::*;
use vstd::string::*;

use crate::text::{
    find_char, is_uint_str, join_spaced, matches_keyword, parse_usize, spec_tokens,
    token_matches, tokenize, uint_str_val, join_tokens_from,
};

verus! {

/// A command of the control protocol.
#[derive(Debug, Clone, PartialEq)]
pub enum PogCommand {
    Goto { line: usize },
    Lines,
    Top,
    Size,
    Mark {
        line: usize,
        /// `(start_col, end_col)`, 1-based as the user wrote them.
        region: Option<(usize, usize)>,
        color: String,
    },
    Unmark {
        line: usize,
        region: Option<(usize, usize)>,
    },
    Search { pattern: String },
    SearchNext,
    SearchPrev,
    SearchClear,
}

/// The mathematical value of a parsed command.
pub enum SpecCommand {
    Goto { line: int },
    Lines,
    Top,
    Size,
    Mark { line: int, region: Option<(int, int)>, color: Seq<char> },
    Unmark { line: int, region: Option<(int, int)> },
    Search { pattern: Seq<char> },
    SearchNext,
    SearchPrev,
    SearchClear,
}

impl View for PogCommand {
    type V = SpecCommand;

    open spec fn view(&self) -> SpecCommand {
        match self {
            PogCommand::Goto { line } => SpecCommand::Goto { line: *line as int },
            PogCommand::Lines => SpecCommand::Lines,
            PogCommand::Top => SpecCommand::Top,
            PogCommand::Size => SpecCommand::Size,
            PogCommand::Mark { line, region, color } => SpecCommand::Mark {
                line: *line as int,
                region: match region {
                    Some((a, b)) => Some((*a as int, *b as int)),
                    None => None,
                },
                color: color@,
            },
            PogCommand::Unmark { line, region } => SpecCommand::Unmark {
                line: *line as int,
                region: match region {
                    Some((a, b)) => Some((*a as int, *b as int)),
                    None => None,
                },
            },
            PogCommand::Search { pattern } => SpecCommand::Search { pattern: pattern@ },
            PogCommand::SearchNext => SpecCommand::SearchNext,
            PogCommand::SearchPrev => SpecCommand::SearchPrev,
            PogCommand::SearchClear => SpecCommand::SearchClear,
        }
    }
}

/// Meaning of a line-number token: a positive decimal number that fits in
/// `usize`, with the message produced otherwise.
pub open spec fn line_token_spec(t: Seq<char>) -> Result<int, Seq<char>> {
    if !is_uint_str(t) || uint_str_val(t) > usize::MAX {
        Err("invalid line number: "@ + t)
    } else if uint_str_val(t) == 0 {
        Err("line number must be >= 1"@)
    } else {
        Ok(uint_str_val(t))
    }
}

/// Whether a token has the shape `<number>-<number>` with both numbers
/// fitting in `usize` (split at the first `-`).
pub open spec fn region_shape_ok(t: Seq<char>) -> bool {
    let k = find_char(t, '-');
    &&& k < t.len()
    &&& is_uint_str(t.take(k))
    &&& uint_str_val(t.take(k)) <= usize::MAX
    &&& is_uint_str(t.skip(k + 1))
    &&& uint_str_val(t.skip(k + 1)) <= usize::MAX
}

/// The two numbers of a `<number>-<number>` token.
pub open spec fn region_vals(t: Seq<char>) -> (int, int) {
    let k = find_char(t, '-');
    (uint_str_val(t.take(k)), uint_str_val(t.skip(k + 1)))
}

pub open spec fn goto_spec(ts: Seq<Seq<char>>) -> Result<SpecCommand, Seq<char>> {
    if ts.len() != 2 {
        Err("usage: goto <line_number>"@)
    } else {
        match line_token_spec(ts[1]) {
            Err(m) => Err(m),
            Ok(line) => Ok(SpecCommand::Goto { line }),
        }
    }
}

pub open spec fn bare_spec(
    ts: Seq<Seq<char>>,
    cmd: SpecCommand,
    usage: Seq<char>,
) -> Result<SpecCommand, Seq<char>> {
    if ts.len() != 1 {
        Err(usage)
    } else {
        Ok(cmd)
    }
}

pub open spec fn mark_spec(ts: Seq<Seq<char>>) -> Result<SpecCommand, Seq<char>> {
    if ts.len() < 3 {
        Err("usage: mark <line_number> [<start>-<end>] <color>"@)
    } else {
        match line_token_spec(ts[1]) {
            Err(m) => Err(m),
            Ok(line) => {
                if region_shape_ok(ts[2]) {
                    let (start, end) = region_vals(ts[2]);
                    if ts.len() < 4 {
                        Err("usage: mark <line_number> <start>-<end> <color>"@)
                    } else if start == 0 || end == 0 {
                        Err("column numbers must be >= 1"@)
                    } else if start >= end {
                        Err("start column must be less than end column"@)
                    } else {
                        Ok(SpecCommand::Mark {
                            line,
                            region: Some((start, end)),
                            color: join_spaced(ts.skip(3)),
                        })
                    }
                } else {
                    Ok(SpecCommand::Mark {
                        line,
                        region: None,
                        color: join_spaced(ts.skip(2)),
                    })
                }
            },
        }
    }
}

pub open spec fn unmark_spec(ts: Seq<Seq<char>>) -> Result<SpecCommand, Seq<char>> {
    if ts.len() < 2 {
        Err("usage: unmark <line_number> [<start>-<end>]"@)
    } else {
        match line_token_spec(ts[1]) {
            Err(m) => Err(m),
            Ok(line) => {
                if ts.len() >= 3 {
                    let k = find_char(ts[2], '-');
                    if k == ts[2].len() {
                        Err("invalid range format: "@ + ts[2])
                    } else if !region_shape_ok(ts[2]) {
                        Err("invalid range: "@ + ts[2])
                    } else {
                        let (start, end) = region_vals(ts[2]);
                        if start == 0 || end == 0 {
                            Err("column numbers must be >= 1"@)
                        } else {
                            Ok(SpecCommand::Unmark { line, region: Some((start, end)) })
                        }
                    }
                } else {
                    Ok(SpecCommand::Unmark { line, region: None })
                }
            },
        }
    }
}

pub open spec fn search_spec(ts: Seq<Seq<char>>) -> Result<SpecCommand, Seq<char>> {
    if ts.len() < 2 {
        Err("usage: search <regex_pattern>"@)
    } else if join_spaced(ts.skip(1)).len() == 0 {
        Err("search pattern cannot be empty"@)
    } else {
        Ok(SpecCommand::Search { pattern: join_spaced(ts.skip(1)) })
    }
}

/// The command grammar: what a command line means, or the error message it
/// draws. The first token selects the command, compared ignoring ASCII case.
pub open spec fn parse_spec(s: Seq<char>) -> Result<SpecCommand, Seq<char>> {
    let ts = spec_tokens(s);
    if ts.len() == 0 {
        Err("empty command"@)
    } else if matches_keyword(ts[0], "goto"@) {
        goto_spec(ts)
    } else if matches_keyword(ts[0], "lines"@) {
        bare_spec(ts, SpecCommand::Lines, "usage: lines"@)
    } else if matches_keyword(ts[0], "top"@) {
        bare_spec(ts, SpecCommand::Top, "usage: top"@)
    } else if matches_keyword(ts[0], "size"@) {
        bare_spec(ts, SpecCommand::Size, "usage: size"@)
    } else if matches_keyword(ts[0], "mark"@) {
        mark_spec(ts)
    } else if matches_keyword(ts[0], "unmark"@) {
        unmark_spec(ts)
    } else if matches_keyword(ts[0], "search"@) {
        search_spec(ts)
    } else if matches_keyword(ts[0], "search-next"@) {
        bare_spec(ts, SpecCommand::SearchNext, "usage: search-next"@)
    } else if matches_keyword(ts[0], "search-prev"@) {
        bare_spec(ts, SpecCommand::SearchPrev, "usage: search-prev"@)
    } else if matches_keyword(ts[0], "search-clear"@) {
        bare_spec(ts, SpecCommand::SearchClear, "usage: search-clear"@)
    } else {
        Err("unknown command: "@ + ts[0])
    }
}

/// Parse a line-number token.
fn parse_line_token(tok: &String) -> (r: Result<usize, String>)
    ensures
        r matches Ok(v) ==> line_token_spec(tok@) == Ok::<int, Seq<char>>(v as int),
        r matches Err(m) ==> line_token_spec(tok@) == Err::<int, Seq<char>>(m@),
{
    match parse_usize(tok.as_str()) {
        None => Err("invalid line number: ".to_owned().concat(tok.as_str())),
        Some(0) => Err("line number must be >= 1".to_owned()),
        Some(v) => Ok(v),
    }
}

/// Split a `<number>-<number>` token at its first `-`.
fn split_region(tok: &String) -> (r: Option<(usize, usize)>)
    ensures
        r is Some <==> region_shape_ok(tok@),
        r matches Some((a, b)) ==> region_vals(tok@) == (a as int, b as int),
{
    match crate::text::index_of_char(tok.as_str(), '-') {
        None => None,
        Some(k) => {
            let n = tok.as_str().unicode_len();
            let left = tok.as_str().substring_char(0, k).to_owned();
            let right = tok.as_str().substring_char(k + 1, n).to_owned();
            proof {
                assert(left@ =~= tok@.take(find_char(tok@, '-')));
                assert(right@ =~= tok@.skip(find_char(tok@, '-') + 1));
            }
            match (parse_usize(left.as_str()), parse_usize(right.as_str())) {
                (Some(a), Some(b)) => Some((a, b)),
                _ => None,
            }
        },
    }
}

/// Parse one command line. Whitespace separates the words; the command word
/// is matched ignoring ASCII case. Returns the command, or a message naming
/// what was wrong, exactly as [`parse_spec`] describes.
pub fn parse_command(input: &str) -> (r: Result<PogCommand, String>)
    ensures
        r matches Ok(c) ==> parse_spec(input@) matches Ok(sc) && c@ == sc,
        r matches Err(m) ==> parse_spec(input@) matches Err(e) && m@ == e,
{
    let tokens = tokenize(input);
    let ghost ts = spec_tokens(input@);
    if tokens.len() == 0 {
        return Err("empty command".to_owned());
    }
    proof {
        assert(tokens@[0]@ == ts[0]);
    }
    if token_matches(tokens[0].as_str(), "goto") {
        if tokens.len() != 2 {
            return Err("usage: goto <line_number>".to_owned());
        }
        proof {
            assert(tokens@[1]@ == ts[1]);
        }
        match parse_line_token(&tokens[1]) {
            Err(m) => Err(m),
            Ok(line) => Ok(PogCommand::Goto { line }),
        }
    } else if token_matches(tokens[0].as_str(), "lines") {
        if tokens.len() != 1 {
            return Err("usage: lines".to_owned());
        }
        Ok(PogCommand::Lines)
    } else if token_matches(tokens[0].as_str(), "top") {
        if tokens.len() != 1 {
            return Err("usage: top".to_owned());
        }
        Ok(PogCommand::Top)
    } else if token_matches(tokens[0].as_str(), "size") {
        if tokens.len() != 1 {
            return Err("usage: size".to_owned());
        }
        Ok(PogCommand::Size)
    } else if token_matches(tokens[0].as_str(), "mark") {
        if tokens.len() < 3 {
            return Err("usage: mark <line_number> [<start>-<end>] <color>".to_owned());
        }
        proof {
            assert(tokens@[1]@ == ts[1]);
            assert(tokens@[2]@ == ts[2]);
        }
        let line = match parse_line_token(&tokens[1]) {
            Err(m) => {
                return Err(m);
            },
            Ok(line) => line,
        };
        match split_region(&tokens[2]) {
            Some((start, end)) => {
                if tokens.len() < 4 {
                    Err("usage: mark <line_number> <start>-<end> <color>".to_owned())
                } else if start == 0 || end == 0 {
                    Err("column numbers must be >= 1".to_owned())
                } else if start >= end {
                    Err("start column must be less than end column".to_owned())
                } else {
                    let color = join_tokens_from(&tokens, 3);
                    proof {
                        assert(tokens.deep_view().skip(3) =~= ts.skip(3));
                    }
                    Ok(PogCommand::Mark { line, region: Some((start, end)), color })
                }
            },
            None => {
                let color = join_tokens_from(&tokens, 2);
                proof {
                    assert(tokens.deep_view().skip(2) =~= ts.skip(2));
                }
                Ok(PogCommand::Mark { line, region: None, color })
            },
        }
    } else if token_matches(tokens[0].as_str(), "unmark") {
        if tokens.len() < 2 {
            return Err("usage: unmark <line_number> [<start>-<end>]".to_owned());
        }
        proof {
            assert(tokens@[1]@ == ts[1]);
        }
        let line = match parse_line_token(&tokens[1]) {
            Err(m) => {
                return Err(m);
            },
            Ok(line) => line,
        };
        if tokens.len() >= 3 {
            proof {
                assert(tokens@[2]@ == ts[2]);
            }
            match crate::text::index_of_char(tokens[2].as_str(), '-') {
                None => Err("invalid range format: ".to_owned().concat(tokens[2].as_str())),
                Some(_) => {
                    match split_region(&tokens[2]) {
                        None => Err("invalid range: ".to_owned().concat(tokens[2].as_str())),
                        Some((start, end)) => {
                            if start == 0 || end == 0 {
                                Err("column numbers must be >= 1".to_owned())
                            } else {
                                Ok(PogCommand::Unmark { line, region: Some((start, end)) })
                            }
                        },
                    }
                },
            }
        } else {
            Ok(PogCommand::Unmark { line, region: None })
        }
    } else if token_matches(tokens[0].as_str(), "search") {
        if tokens.len() < 2 {
            return Err("usage: search <regex_pattern>".to_owned());
        }
        let pattern = join_tokens_from(&tokens, 1);
        proof {
            assert(tokens.deep_view().skip(1) =~= ts.skip(1));
        }
        if pattern.as_str().unicode_len() == 0 {
            return Err("search pattern cannot be empty".to_owned());
        }
        Ok(PogCommand::Search { pattern })
    } else if token_matches(tokens[0].as_str(), "search-next") {
        if tokens.len() != 1 {
            return Err("usage: search-next".to_owned());
        }
        Ok(PogCommand::SearchNext)
    } else if token_matches(tokens[0].as_str(), "search-prev") {
        if tokens.len() != 1 {
            return Err("usage: search-prev".to_owned());
        }
        Ok(PogCommand::SearchPrev)
    } else if token_matches(tokens[0].as_str(), "search-clear") {
        if tokens.len() != 1 {
            return Err("usage: search-clear".to_owned());
        }
        Ok(PogCommand::SearchClear)
    } else {
        Err("unknown command: ".to_owned().concat(tokens[0].as_str()))
    }
}

/// A response on the control protocol.
#[derive(Debug, Clone)]
pub enum CommandResponse {
    Okay(Option<String>),
    Error(String),
}

impl CommandResponse {
    /// The protocol rendering of this response.
    pub open spec fn spec_text(&self) -> Seq<char> {
        match self {
            CommandResponse::Okay(None) => "OK"@,
            CommandResponse::Okay(Some(msg)) => "OK "@ + msg@,
            CommandResponse::Error(msg) => "ERROR "@ + msg@,
        }
    }

    /// Render the response as one protocol line (without the newline).
    pub fn to_text(&self) -> (r: String)
        ensures
            r@ == self.spec_text(),
    {
        match self {
            CommandResponse::Okay(None) => "OK".to_owned(),
            CommandResponse::Okay(Some(msg)) => "OK ".to_owned().concat(msg.as_str()),
            CommandResponse::Error(msg) => "ERROR ".to_owned().concat(msg.as_str()),
        }
    }
}

} // verus!
