//! Remote backend: the uniform file-access contract over a remote
//! command-execution channel, with a chunk cache to bound memory and round
//! trips and a fixed retry budget for transient failures.
//!
//! The channel itself is injected as a closure from attempt number and
//! command text to an [`ExecOutcome`]; everything around it — command
//! composition, retries, failure classification, output parsing, caching
//! and assembly — is verified here.

use vstd::prelude::*;
use vstd::string::*;

use crate::cache::{chunk_start_of, LineCache, CHUNK_SIZE};
use crate::error::PogError;
use crate::file_loader::decode_utf8_bytes;
use crate::file_source::{present_lines, FileSource};
use crate::text::{
    is_uint_str, lines_of, parse_usize, split_lines, trim, trim_spec, uint_str_val,
};

verus! {

/// How many times a remote operation is attempted before its failure is
/// surfaced.
pub const MAX_RETRIES: usize = 3;

/// The fixed pause between attempts that the channel is expected to
/// insert, in milliseconds.
pub const RETRY_DELAY_MS: u64 = 500;

/// How many chunks the cache of a remote file holds.
pub const MAX_CACHED_CHUNKS: usize = 20;

/// What one attempt of running a remote command produced.
pub enum ExecOutcome {
    /// The command could not be run; the reported reason.
    Io(String),
    /// The command ran and failed; its standard error text.
    Failed(String),
    /// The command succeeded; its raw standard output.
    Output(Vec<u8>),
}

/// Decimal digits of `v`, most significant first (for `v < 0`: empty).
pub open spec fn spec_decimal(v: int) -> Seq<char>
    decreases v,
{
    if v < 0 {
        Seq::empty()
    } else if v < 10 {
        seq![decimal_digit(v)]
    } else {
        spec_decimal(v / 10).push(decimal_digit(v % 10))
    }
}

/// The character for one decimal digit.
pub open spec fn decimal_digit(d: int) -> char {
    if d == 0 {
        '0'
    } else if d == 1 {
        '1'
    } else if d == 2 {
        '2'
    } else if d == 3 {
        '3'
    } else if d == 4 {
        '4'
    } else if d == 5 {
        '5'
    } else if d == 6 {
        '6'
    } else if d == 7 {
        '7'
    } else if d == 8 {
        '8'
    } else {
        '9'
    }
}

/// Append one decimal digit to a string.
fn append_digit(s: &mut String, d: usize)
    requires
        d < 10,
    ensures
        final(s)@ == old(s)@ + seq![decimal_digit(d as int)],
{
    proof {
        reveal_strlit("0");
        reveal_strlit("1");
        reveal_strlit("2");
        reveal_strlit("3");
        reveal_strlit("4");
        reveal_strlit("5");
        reveal_strlit("6");
        reveal_strlit("7");
        reveal_strlit("8");
        reveal_strlit("9");
    }
    if d == 0 {
        s.append("0");
        proof {
            assert(final(s)@ =~= old(s)@ + seq![decimal_digit(d as int)]);
        }
    } else if d == 1 {
        s.append("1");
        proof {
            assert(final(s)@ =~= old(s)@ + seq![decimal_digit(d as int)]);
        }
    } else if d == 2 {
        s.append("2");
        proof {
            assert(final(s)@ =~= old(s)@ + seq![decimal_digit(d as int)]);
        }
    } else if d == 3 {
        s.append("3");
        proof {
            assert(final(s)@ =~= old(s)@ + seq![decimal_digit(d as int)]);
        }
    } else if d == 4 {
        s.append("4");
        proof {
            assert(final(s)@ =~= old(s)@ + seq![decimal_digit(d as int)]);
        }
    } else if d == 5 {
        s.append("5");
        proof {
            assert(final(s)@ =~= old(s)@ + seq![decimal_digit(d as int)]);
        }
    } else if d == 6 {
        s.append("6");
        proof {
            assert(final(s)@ =~= old(s)@ + seq![decimal_digit(d as int)]);
        }
    } else if d == 7 {
        s.append("7");
        proof {
            assert(final(s)@ =~= old(s)@ + seq![decimal_digit(d as int)]);
        }
    } else if d == 8 {
        s.append("8");
        proof {
            assert(final(s)@ =~= old(s)@ + seq![decimal_digit(d as int)]);
        }
    } else {
        s.append("9");
        proof {
            assert(final(s)@ =~= old(s)@ + seq![decimal_digit(d as int)]);
        }
    }
}

/// Append the decimal rendering of `v` to a string.
fn append_decimal(s: &mut String, v: usize)
    ensures
        final(s)@ == old(s)@ + spec_decimal(v as int),
    decreases v,
{
    if v >= 10 {
        append_decimal(s, v / 10);
        append_digit(s, v % 10);
        proof {
            assert(final(s)@ =~= old(s)@ + spec_decimal(v as int));
        }
    } else {
        append_digit(s, v);
    }
}

/// The remote probe that counts the newline-delimited lines of the file.
pub open spec fn count_command_spec(path: Seq<char>) -> Seq<char> {
    "wc -l < '"@ + path + "'"@
}

/// The remote command that emits `count` lines starting at the 1-based
/// line `start1`.
pub open spec fn chunk_command_spec(path: Seq<char>, start1: int, count: int) -> Seq<char> {
    "tail -n +"@ + spec_decimal(start1) + " '"@ + path + "' | head -n "@ + spec_decimal(count)
}

/// The remote probe that reports the file's byte length.
pub open spec fn size_command_spec(path: Seq<char>) -> Seq<char> {
    "stat -c%s '"@ + path + "'"@
}

fn build_count_command(path: &str) -> (r: String)
    ensures
        r@ == count_command_spec(path@),
{
    let mut s = "wc -l < '".to_owned();
    s.append(path);
    s.append("'");
    s
}

fn build_chunk_command(path: &str, start1: usize, count: usize) -> (r: String)
    ensures
        r@ == chunk_command_spec(path@, start1 as int, count as int),
{
    let mut s = "tail -n +".to_owned();
    append_decimal(&mut s, start1);
    s.append(" '");
    s.append(path);
    s.append("' | head -n ");
    append_decimal(&mut s, count);
    s
}

fn build_size_command(path: &str) -> (r: String)
    ensures
        r@ == size_command_spec(path@),
{
    let mut s = "stat -c%s '".to_owned();
    s.append(path);
    s.append("'");
    s
}

/// Whether `needle` occurs contiguously in `hay`.
pub open spec fn has_substring(hay: Seq<char>, needle: Seq<char>) -> bool {
    exists|i: int|
        0 <= i && i + needle.len() <= hay.len() && #[trigger] hay.subrange(i, i + needle.len())
            == needle
}

/// Search for a contiguous occurrence of `needle` in `hay`.
pub fn contains_substring(hay: &str, needle: &str) -> (b: bool)
    ensures
        b == has_substring(hay@, needle@),
{
    let n = hay.unicode_len();
    let m = needle.unicode_len();
    if m > n {
        proof {
            assert(!has_substring(hay@, needle@));
        }
        return false;
    }
    let mut i: usize = 0;
    while i <= n - m
        invariant
            n == hay@.len(),
            m == needle@.len(),
            m <= n,
            i <= n - m + 1,
            forall|ii: int| 0 <= ii < i ==> #[trigger] hay@.subrange(ii, ii + m) != needle@,
        decreases n + 1 - m - i,
    {
        let mut j: usize = 0;
        let mut matched = true;
        while j < m
            invariant
                n == hay@.len(),
                m == needle@.len(),
                i + m <= n,
                j <= m,
                matched ==> forall|jj: int| 0 <= jj < j ==> hay@[i + jj] == needle@[jj],
                !matched ==> exists|jj: int| 0 <= jj < m && hay@[i + jj] != needle@[jj],
            decreases m - j,
        {
            if hay.get_char(i + j) != needle.get_char(j) {
                proof {
                    assert(hay@[i + j] != needle@[j as int]);
                }
                matched = false;
                j = m;
            } else {
                j += 1;
            }
        }
        if matched {
            proof {
                assert(hay@.subrange(i as int, i + m) =~= needle@);
            }
            return true;
        }
        proof {
            if hay@.subrange(i as int, i + m) == needle@ {
                let jj = choose|jj: int| 0 <= jj < m && hay@[i + jj] != needle@[jj];
                assert(hay@.subrange(i as int, i + m)[jj] == hay@[i + jj]);
                assert(false);
            }
        }
        i += 1;
    }
    proof {
        assert forall|ii: int| !(0 <= ii && ii + m <= n && #[trigger] hay@.subrange(ii, ii + m)
            == needle@) by {
            if 0 <= ii && ii + m <= n {
                assert(ii < i);
            }
        }
    }
    false
}

/// Map the failure text of a remote call to an error kind: text naming a
/// missing file or denied permission is distinguished; anything else is a
/// generic remote error carrying host and raw message.
pub fn classify_remote_failure(stderr: &str, host: &str, target: &str) -> (e: PogError)
    ensures
        has_substring(stderr@, "No such file"@) ==> (e matches PogError::FileNotFound { path }
            && path@ == target@),
        !has_substring(stderr@, "No such file"@) && has_substring(stderr@, "Permission denied"@)
            ==> (e matches PogError::PermissionDenied { path } && path@ == target@),
        !has_substring(stderr@, "No such file"@) && !has_substring(stderr@, "Permission denied"@)
            ==> (e matches PogError::Ssh { host: h, message } && h@ == host@
                && message@ == stderr@),
{
    if contains_substring(stderr, "No such file") {
        PogError::FileNotFound { path: target.to_owned() }
    } else if contains_substring(stderr, "Permission denied") {
        PogError::PermissionDenied { path: target.to_owned() }
    } else {
        PogError::Ssh { host: host.to_owned(), message: stderr.to_owned() }
    }
}

/// Read a line count from the count probe's output: the trimmed text as a
/// decimal number.
pub fn parse_count_output(out: &str, host: &str) -> (r: Result<usize, PogError>)
    ensures
        r is Ok <==> is_uint_str(trim_spec(out@)) && uint_str_val(trim_spec(out@)) <= usize::MAX,
        r matches Ok(v) ==> v == uint_str_val(trim_spec(out@)),
        r matches Err(e) ==> e matches PogError::Ssh { host: h, message } && h@ == host@
            && message@ == "Invalid line count: "@ + trim_spec(out@),
{
    let t = trim(out);
    match parse_usize(t.as_str()) {
        Some(v) => Ok(v),
        None => Err(
            PogError::Ssh {
                host: host.to_owned(),
                message: "Invalid line count: ".to_owned().concat(t.as_str()),
            },
        ),
    }
}

/// Read a byte size from the size probe's output: the trimmed text as a
/// decimal number.
pub fn parse_size_output(out: &str, host: &str) -> (r: Result<u64, PogError>)
    ensures
        r is Ok <==> is_uint_str(trim_spec(out@)) && uint_str_val(trim_spec(out@)) <= usize::MAX,
        r matches Ok(v) ==> v == uint_str_val(trim_spec(out@)),
        r matches Err(e) ==> e matches PogError::Ssh { host: h, message } && h@ == host@
            && message@ == "Invalid file size: "@ + trim_spec(out@),
{
    let t = trim(out);
    match parse_usize(t.as_str()) {
        Some(v) => Ok(v as u64),
        None => Err(
            PogError::Ssh {
                host: host.to_owned(),
                message: "Invalid file size: ".to_owned().concat(t.as_str()),
            },
        ),
    }
}

/// The remote backend: location, probed line count, chunk cache, and the
/// injected command channel.
pub struct RemoteFile<F: Fn(usize, String) -> ExecOutcome> {
    host: String,
    path: String,
    display_name: String,
    line_count: usize,
    cache: LineCache,
    runner: F,
}

impl<F: Fn(usize, String) -> ExecOutcome> RemoteFile<F> {
    /// The host part of the remote location.
    pub closed spec fn remote_host(&self) -> Seq<char> {
        self.host@
    }

    /// Whether this line is in the cache: its chunk is present and long
    /// enough to hold it.
    pub closed spec fn line_cached(&self, line_num: usize) -> bool {
        self.cache.spec_contains_line(line_num)
    }

    /// Every line of `[start, end)` is in the cache.
    pub open spec fn lines_cached(&self, start: int, end: int) -> bool {
        forall|i: usize| start <= i < end ==> #[trigger] self.line_cached(i)
    }

    /// The channel accepts every attempt number and command.
    pub closed spec fn runner_ready(&self) -> bool {
        forall|a: usize, c: String| #[trigger] call_requires(self.runner, (a, c))
    }

    /// Open a remote file: probe its line count over the channel, retrying
    /// transient failures, and start with an empty cache. The channel `exec`
    /// runs one attempt of a command and reports what happened; it is also
    /// expected to pause between attempts.
    pub fn open(host: &str, path: &str, runner: F) -> (r: Result<Self, PogError>)
        requires
            forall|a: usize, c: String| #[trigger] call_requires(runner, (a, c)),
        ensures
            r matches Ok(rf) ==> {
                &&& rf.wf()
                &&& rf.display_model() == host@ + ":"@ + path@
                &&& forall|i: int| 0 <= i < rf.lines_model().len() ==> rf.lines_model()[i] is None
            },
            r matches Err(e) ==> ({
                ||| e matches PogError::Io(_)
                ||| e matches PogError::Utf8(_)
                ||| (e matches PogError::Ssh { host: h, message } && h@ == host@)
                ||| (e matches PogError::FileNotFound { path: p } && p@ == host@ + ":"@ + path@)
                ||| (e matches PogError::PermissionDenied { path: p } && p@ == host@ + ":"@
                    + path@)
            }),
    {
        let mut display_name = host.to_owned();
        display_name.append(":");
        display_name.append(path);
        let cmd = build_count_command(path);
        let mut last: Option<PogError> = None;
        let mut attempt: usize = 0;
        while attempt < MAX_RETRIES
            invariant
                forall|a: usize, c: String| #[trigger] call_requires(runner, (a, c)),
                display_name@ == host@ + ":"@ + path@,
                attempt > 0 ==> last is Some,
                last matches Some(e) ==> ({
                    ||| e matches PogError::Io(_)
                    ||| e matches PogError::Utf8(_)
                    ||| (e matches PogError::Ssh { host: h, message } && h@ == host@)
                    ||| (e matches PogError::FileNotFound { path: p } && p@ == host@ + ":"@
                        + path@)
                    ||| (e matches PogError::PermissionDenied { path: p } && p@ == host@ + ":"@
                        + path@)
                }),
            decreases MAX_RETRIES - attempt,
        {
            match (runner)(attempt, cmd.clone()) {
                ExecOutcome::Io(msg) => {
                    last = Some(PogError::Io(msg));
                },
                ExecOutcome::Failed(stderr) => {
                    last = Some(
                        classify_remote_failure(stderr.as_str(), host, display_name.as_str()),
                    );
                },
                ExecOutcome::Output(bytes) => {
                    match decode_utf8_bytes(bytes.as_slice()) {
                        None => {
                            last = Some(
                                PogError::Utf8("invalid UTF-8 in command output".to_owned()),
                            );
                        },
                        Some(out) => {
                            match parse_count_output(out.as_str(), host) {
                                Ok(line_count) => {
                                    let rf = RemoteFile {
                                        host: host.to_owned(),
                                        path: path.to_owned(),
                                        display_name,
                                        line_count,
                                        cache: LineCache::new(MAX_CACHED_CHUNKS),
                                        runner,
                                    };
                                    proof {
                                        assert forall|i: int|
                                            0 <= i < rf.lines_model().len() implies rf.lines_model()[i]
                                            is None by {
                                            assert(!rf.cache.has_chunk(
                                                chunk_start_of(i) as usize,
                                            ));
                                        }
                                    }
                                    return Ok(rf);
                                },
                                Err(e) => {
                                    last = Some(e);
                                },
                            }
                        },
                    }
                },
            }
            attempt += 1;
        }
        match last {
            Some(e) => Err(e),
            None => {
                proof {
                    assert(false);
                }
                Err(PogError::Io(String::new()))
            },
        }
    }

    /// Fetch the lines of the chunk at `chunk_start` over the channel:
    /// exactly `min(CHUNK_SIZE, line_count - chunk_start)` lines starting
    /// at the 1-based line `chunk_start + 1`, retried on failure.
    fn fetch_chunk(&self, chunk_start: usize) -> (r: Result<Vec<String>, PogError>)
        requires
            self.wf(),
            chunk_start < self.lines_model().len(),
        ensures
            r matches Ok(v) ==> exists|t: Seq<char>| v.deep_view() == lines_of(t),
            r matches Err(e) ==> ({
                ||| e matches PogError::Io(_)
                ||| e matches PogError::Utf8(_)
                ||| (e matches PogError::Ssh { host, message } && host@ == self.host@)
            }),
    {
        let count = if CHUNK_SIZE < self.line_count - chunk_start {
            CHUNK_SIZE
        } else {
            self.line_count - chunk_start
        };
        let cmd = build_chunk_command(self.path.as_str(), chunk_start + 1, count);
        let mut last: Option<PogError> = None;
        let mut attempt: usize = 0;
        while attempt < MAX_RETRIES
            invariant
                self.wf(),
                attempt > 0 ==> last is Some,
                last matches Some(e) ==> ({
                    ||| e matches PogError::Io(_)
                    ||| e matches PogError::Utf8(_)
                    ||| (e matches PogError::Ssh { host, message } && host@ == self.host@)
                }),
            decreases MAX_RETRIES - attempt,
        {
            match (self.runner)(attempt, cmd.clone()) {
                ExecOutcome::Io(msg) => {
                    last = Some(PogError::Io(msg));
                },
                ExecOutcome::Failed(stderr) => {
                    last = Some(
                        PogError::Ssh {
                            host: self.host.clone(),
                            message: stderr,
                        },
                    );
                },
                ExecOutcome::Output(bytes) => {
                    match decode_utf8_bytes(bytes.as_slice()) {
                        None => {
                            last = Some(
                                PogError::Utf8("invalid UTF-8 in command output".to_owned()),
                            );
                        },
                        Some(out) => {
                            return Ok(split_lines(out.as_str()));
                        },
                    }
                },
            }
            attempt += 1;
        }
        match last {
            Some(e) => Err(e),
            None => {
                proof {
                    assert(false);
                }
                Err(PogError::Io(String::new()))
            },
        }
    }

    /// Make sure the chunk owning `chunk_start` is cached: a cache
    /// read-check first, then one fetch inserted into the cache.
    fn ensure_chunk_loaded(&mut self, chunk_start: usize) -> (r: Result<(), PogError>)
        requires
            old(self).wf(),
            chunk_start < old(self).lines_model().len(),
            chunk_start as int % CHUNK_SIZE as int == 0,
        ensures
            final(self).wf(),
            final(self).lines_model().len() == old(self).lines_model().len(),
            final(self).display_model() == old(self).display_model(),
            final(self).size_model() == old(self).size_model(),
            r is Ok ==> final(self).cache_has(chunk_start),
            r is Err ==> *final(self) == *old(self),
            old(self).cache.spec_contains_line(chunk_start) ==> (r is Ok
                && *final(self) == *old(self)),
    {
        proof {
            vstd::arithmetic::div_mod::lemma_fundamental_div_mod(
                chunk_start as int,
                CHUNK_SIZE as int,
            );
            assert(chunk_start_of(chunk_start as int) == chunk_start);
        }
        if self.cache.contains_line(chunk_start) {
            return Ok(());
        }
        match self.fetch_chunk(chunk_start) {
            Ok(lines) => {
                self.cache.insert_chunk(chunk_start, lines);
                Ok(())
            },
            Err(e) => Err(e),
        }
    }

    /// Whether the chunk starting at `chunk_start` is cached.
    pub closed spec fn cache_has(&self, chunk_start: usize) -> bool {
        self.cache.has_chunk(chunk_start)
    }
}

impl<F: Fn(usize, String) -> ExecOutcome> FileSource for RemoteFile<F> {
    /// A line is at hand exactly while its chunk is cached and long enough.
    closed spec fn lines_model(&self) -> Seq<Option<Seq<char>>> {
        Seq::new(
            self.line_count as nat,
            |i: int|
                {
                    let cs = chunk_start_of(i);
                    if self.cache.has_chunk(cs as usize) && i - cs < self.cache.chunk_lines(
                        cs as usize,
                    ).len() {
                        Some(self.cache.chunk_lines(cs as usize)[i - cs])
                    } else {
                        None
                    }
                },
        )
    }

    closed spec fn display_model(&self) -> Seq<char> {
        self.display_name@
    }

    /// The size is probed remotely each time; nothing is promised of it.
    closed spec fn size_model(&self) -> Option<u64> {
        None
    }

    closed spec fn wf(&self) -> bool {
        &&& self.cache.wf()
        &&& self.runner_ready()
    }

    fn line_count(&self) -> (r: usize) {
        self.line_count
    }

    /// A remote probe for the byte length, with the same retry policy as
    /// chunk fetches. Nothing is promised of the reported size; a failure
    /// is one of the remote error kinds, carrying this file's host.
    fn file_size(&self) -> (r: Result<u64, PogError>)
        ensures
            r matches Err(e) ==> ({
                ||| e matches PogError::Io(_)
                ||| e matches PogError::Utf8(_)
                ||| (e matches PogError::Ssh { host, message } && host@ == self.remote_host())
            }),
    {
        let cmd = build_size_command(self.path.as_str());
        let mut last: Option<PogError> = None;
        let mut attempt: usize = 0;
        while attempt < MAX_RETRIES
            invariant
                self.wf(),
                attempt > 0 ==> last is Some,
                last matches Some(e) ==> ({
                    ||| e matches PogError::Io(_)
                    ||| e matches PogError::Utf8(_)
                    ||| (e matches PogError::Ssh { host, message } && host@
                        == self.remote_host())
                }),
            decreases MAX_RETRIES - attempt,
        {
            match (self.runner)(attempt, cmd.clone()) {
                ExecOutcome::Io(msg) => {
                    last = Some(PogError::Io(msg));
                },
                ExecOutcome::Failed(stderr) => {
                    last = Some(
                        PogError::Ssh {
                            host: self.host.clone(),
                            message: stderr,
                        },
                    );
                },
                ExecOutcome::Output(bytes) => {
                    match decode_utf8_bytes(bytes.as_slice()) {
                        None => {
                            last = Some(
                                PogError::Utf8("invalid UTF-8 in command output".to_owned()),
                            );
                        },
                        Some(out) => {
                            match parse_size_output(out.as_str(), self.host.as_str()) {
                                Ok(size) => {
                                    return Ok(size);
                                },
                                Err(e) => {
                                    last = Some(e);
                                },
                            }
                        },
                    }
                },
            }
            attempt += 1;
        }
        match last {
            Some(e) => Err(e),
            None => {
                proof {
                    assert(false);
                }
                Err(PogError::Io(String::new()))
            },
        }
    }

    /// A read of a line that is already cached cannot fail.
    fn get_line(&mut self, line_num: usize) -> (r: Result<Option<String>, PogError>)
        ensures
            old(self).line_cached(line_num) ==> r is Ok,
    {
        if line_num >= self.line_count {
            return Ok(None);
        }
        let chunk_start = LineCache::chunk_start_for_line(line_num);
        proof {
            vstd::arithmetic::div_mod::lemma_fundamental_div_mod(
                chunk_start as int,
                CHUNK_SIZE as int,
            );
            assert(chunk_start_of(chunk_start as int) == chunk_start);
            if old(self).line_cached(line_num) {
                assert(self.cache.spec_contains_line(chunk_start));
            }
        }
        match self.ensure_chunk_loaded(chunk_start) {
            Ok(()) => {},
            Err(e) => {
                return Err(e);
            },
        }
        let r = self.cache.get_line(line_num);
        proof {
            assert(self.lines_model().len() == old(self).lines_model().len());
        }
        Ok(r)
    }

    /// A read whose every spanned chunk is already cached cannot fail.
    fn get_lines(&mut self, start_line: usize, count: usize) -> (r: Result<
        Vec<(usize, String)>,
        PogError,
    >)
        ensures
            old(self).lines_cached(
                start_line as int,
                vstd::math::min(start_line + count, old(self).lines_model().len() as int),
            ) ==> r is Ok,
    {
        let ghost span_end = vstd::math::min(
            start_line + count,
            old(self).lines_model().len() as int,
        );
        let total = self.line_count;
        let end = if count < total && start_line <= total - count {
            start_line + count
        } else {
            total
        };
        if end <= start_line {
            let lines: Vec<(usize, String)> = Vec::new();
            proof {
                assert(lines.deep_view() =~= present_lines(
                    self.lines_model(),
                    start_line as int,
                    vstd::math::min(start_line + count, self.lines_model().len() as int),
                ));
            }
            return Ok(lines);
        }
        let first_chunk = LineCache::chunk_start_for_line(start_line);
        let last_chunk = LineCache::chunk_start_for_line(end - 1);
        let mut cs = first_chunk;
        loop
            invariant_except_break
                first_chunk <= cs <= last_chunk,
                cs as int % CHUNK_SIZE as int == 0,
                last_chunk as int % CHUNK_SIZE as int == 0,
                last_chunk < self.lines_model().len(),
                first_chunk == chunk_start_of(start_line as int),
                last_chunk == chunk_start_of(end - 1),
            invariant
                self.wf(),
                self.lines_model().len() == old(self).lines_model().len(),
                self.display_model() == old(self).display_model(),
                self.size_model() == old(self).size_model(),
                end <= self.lines_model().len(),
                count > 0,
                start_line < old(self).lines_model().len(),
                start_line < end,
                end == span_end,
                span_end == vstd::math::min(
                    start_line + count,
                    old(self).lines_model().len() as int,
                ),
                old(self).lines_cached(start_line as int, span_end) ==> *self == *old(self),
            decreases last_chunk - cs,
        {
            proof {
                if old(self).lines_cached(start_line as int, span_end) {
                    // The chunk at `cs` holds some line of the requested
                    // span, so it is cached with at least that line.
                    vstd::arithmetic::div_mod::lemma_fundamental_div_mod(
                        cs as int,
                        CHUNK_SIZE as int,
                    );
                    vstd::arithmetic::div_mod::lemma_fundamental_div_mod(
                        end - 1,
                        CHUNK_SIZE as int,
                    );
                    vstd::arithmetic::div_mod::lemma_mod_bound(end - 1, CHUNK_SIZE as int);
                    assert(chunk_start_of(cs as int) == cs);
                    assert(last_chunk <= end - 1);
                    let witness: usize = if cs >= start_line {
                        cs
                    } else {
                        start_line
                    };
                    assert(chunk_start_of(witness as int) == cs);
                    assert(start_line <= witness < span_end);
                    assert(old(self).line_cached(witness));
                    assert(self.cache.spec_contains_line(cs));
                }
            }
            match self.ensure_chunk_loaded(cs) {
                Ok(()) => {},
                Err(e) => {
                    proof {
                        if old(self).lines_cached(start_line as int, span_end) {
                            assert(false);
                        }
                    }
                    return Err(e);
                },
            }
            if last_chunk - cs < CHUNK_SIZE {
                break;
            }
            cs += CHUNK_SIZE;
        }
        let ghost model = self.lines_model();
        let mut lines: Vec<(usize, String)> = Vec::new();
        let mut i: usize = start_line;
        proof {
            assert(lines.deep_view() =~= present_lines(model, start_line as int, i as int));
        }
        while i < end
            invariant
                self.wf(),
                model == self.lines_model(),
                self.lines_model().len() == old(self).lines_model().len(),
                self.display_model() == old(self).display_model(),
                self.size_model() == old(self).size_model(),
                start_line <= i <= end,
                end <= model.len(),
                end == vstd::math::min(start_line + count, model.len() as int),
                lines.deep_view() == present_lines(model, start_line as int, i as int),
            decreases end - i,
        {
            let ghost pre_cache = self.cache;
            let ghost pre = lines.deep_view();
            let got = self.cache.get_line(i);
            proof {
                assert(self.lines_model() =~= model);
            }
            match got {
                Some(t) => {
                    let ghost tv = t@;
                    lines.push((i, t));
                    proof {
                        assert(model[i as int] == Some(tv));
                        assert(lines.deep_view() =~= pre.push((i, tv)));
                        assert(present_lines(model, start_line as int, i + 1) =~= pre.push(
                            (i, tv),
                        ));
                    }
                },
                None => {
                    proof {
                        assert(model[i as int] is None);
                        assert(present_lines(model, start_line as int, i + 1) == pre);
                    }
                },
            }
            i += 1;
        }
        Ok(lines)
    }

    fn display_name(&self) -> (r: &str) {
        self.display_name.as_str()
    }
}

} // verus!
