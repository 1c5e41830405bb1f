//! Verified text utilities: whitespace tokenization, unsigned-number
//! parsing, case-insensitive keyword matching and line splitting, all
//! specified over character sequences.

use vstd::prelude::*;
use vstd::string::*;

verus! {

/// ASCII whitespace, the separators recognized by the command grammar.
pub open spec fn is_space_char(c: char) -> bool {
    c == ' ' || c == '\t' || c == '\r' || c == '\n'
}

/// Length of the leading run of non-space characters.
pub open spec fn token_len(s: Seq<char>) -> int
    decreases s.len(),
{
    if s.len() == 0 || is_space_char(s[0]) {
        0
    } else {
        1 + token_len(s.drop_first())
    }
}

pub proof fn lemma_token_len_bounds(s: Seq<char>)
    ensures
        0 <= token_len(s) <= s.len(),
        forall|i: int| 0 <= i < token_len(s) ==> !is_space_char(s[i]),
        token_len(s) < s.len() ==> is_space_char(s[token_len(s)]),
    decreases s.len(),
{
    if s.len() == 0 || is_space_char(s[0]) {
    } else {
        lemma_token_len_bounds(s.drop_first());
        assert forall|i: int| 0 <= i < token_len(s) implies !is_space_char(s[i]) by {
            if i > 0 {
                assert(s.drop_first()[i - 1] == s[i]);
            }
        }
    }
}

/// The maximal runs of non-space characters, in order: what splitting on
/// whitespace and discarding empty pieces yields.
pub open spec fn spec_tokens(s: Seq<char>) -> Seq<Seq<char>>
    decreases s.len(),
    via spec_tokens_decreases
{
    if s.len() == 0 {
        Seq::empty()
    } else if is_space_char(s[0]) {
        spec_tokens(s.drop_first())
    } else {
        seq![s.take(token_len(s))] + spec_tokens(s.skip(token_len(s)))
    }
}

#[via_fn]
proof fn spec_tokens_decreases(s: Seq<char>) {
    lemma_token_len_bounds(s);
}

/// One past the end of the token that starts at `start`.
fn token_end(s: &str, start: usize) -> (j: usize)
    requires
        start < s@.len(),
        !is_space_char(s@[start as int]),
    ensures
        start < j <= s@.len(),
        j - start == token_len(s@.skip(start as int)),
        s@.skip(start as int).take(token_len(s@.skip(start as int))) ==
            s@.subrange(start as int, j as int),
        s@.skip(start as int).skip(token_len(s@.skip(start as int))) ==
            s@.skip(j as int),
{
    let n = s.unicode_len();
    let ghost rest = s@.skip(start as int);
    let mut j: usize = start + 1;
    proof {
        assert(rest[0] == s@[start as int]);
        assert(rest.drop_first() =~= s@.skip(start + 1));
        assert(token_len(rest) == 1 + token_len(s@.skip(start + 1)));
    }
    while j < n
        invariant
            n == s@.len(),
            start < j <= n,
            rest == s@.skip(start as int),
            token_len(rest) == j - start + token_len(s@.skip(j as int)),
        decreases n - j,
    {
        let c = s.get_char(j);
        if c == ' ' || c == '\t' || c == '\r' || c == '\n' {
            proof {
                assert(s@.skip(j as int)[0] == s@[j as int]);
                assert(token_len(s@.skip(j as int)) == 0);
                assert(rest.take(token_len(rest)) =~= s@.subrange(start as int, j as int));
                assert(rest.skip(token_len(rest)) =~= s@.skip(j as int));
            }
            return j;
        }
        proof {
            assert(s@.skip(j as int)[0] == s@[j as int]);
            assert(s@.skip(j as int).drop_first() =~= s@.skip(j + 1));
            assert(token_len(s@.skip(j as int)) == 1 + token_len(s@.skip(j + 1)));
        }
        j += 1;
    }
    proof {
        assert(s@.skip(j as int) =~= Seq::<char>::empty());
        assert(token_len(s@.skip(j as int)) == 0);
        assert(rest.take(token_len(rest)) =~= s@.subrange(start as int, j as int));
        assert(rest.skip(token_len(rest)) =~= s@.skip(j as int));
    }
    j
}

/// Split a string into its whitespace-separated tokens.
pub fn tokenize(s: &str) -> (r: Vec<String>)
    ensures
        r.deep_view() == spec_tokens(s@),
{
    let n = s.unicode_len();
    let mut r: Vec<String> = Vec::new();
    let mut i: usize = 0;
    proof {
        assert(s@.skip(0) =~= s@);
        assert(r.deep_view() =~= Seq::<Seq<char>>::empty());
        assert(r.deep_view() + spec_tokens(s@) =~= spec_tokens(s@));
    }
    while i < n
        invariant
            n == s@.len(),
            i <= n,
            r.deep_view() + spec_tokens(s@.skip(i as int)) == spec_tokens(s@),
        decreases n - i,
    {
        let c = s.get_char(i);
        if c == ' ' || c == '\t' || c == '\r' || c == '\n' {
            proof {
                assert(s@.skip(i as int)[0] == s@[i as int]);
                assert(s@.skip(i as int).drop_first() =~= s@.skip(i + 1));
            }
            i += 1;
        } else {
            proof {
                assert(s@.skip(i as int)[0] == s@[i as int]);
            }
            let ghost rest = s@.skip(i as int);
            let j = token_end(s, i);
            let ghost pre = r.deep_view();
            let tok = s.substring_char(i, j).to_owned();
            proof {
                assert(tok@ == rest.take(token_len(rest)));
                assert(spec_tokens(rest) ==
                    seq![rest.take(token_len(rest))] + spec_tokens(rest.skip(token_len(rest))));
            }
            r.push(tok);
            proof {
                assert(r.deep_view() =~= pre.push(tok@));
                assert(pre.push(tok@) + spec_tokens(s@.skip(j as int)) =~=
                    pre + spec_tokens(rest));
            }
            i = j;
        }
    }
    proof {
        assert(s@.skip(n as int) =~= Seq::<char>::empty());
    }
    r
}

/// An ASCII decimal digit.
pub open spec fn is_digit_char(c: char) -> bool {
    '0' as u32 <= c as u32 && c as u32 <= '9' as u32
}

/// The number denoted by a sequence of decimal digits, most significant
/// first.
pub open spec fn digits_val(s: Seq<char>) -> int
    decreases s.len(),
{
    if s.len() == 0 {
        0
    } else {
        digits_val(s.drop_last()) * 10 + (s.last() as u32 - '0' as u32)
    }
}

/// The digit part of an unsigned decimal literal: everything after one
/// optional leading `+`.
pub open spec fn uint_body(s: Seq<char>) -> Seq<char> {
    if s.len() > 0 && s[0] == '+' {
        s.drop_first()
    } else {
        s
    }
}

/// Whether `s` is a well-formed unsigned decimal literal: an optional `+`
/// followed by one or more digits.
pub open spec fn is_uint_str(s: Seq<char>) -> bool {
    &&& uint_body(s).len() > 0
    &&& forall|i: int| 0 <= i < uint_body(s).len() ==> is_digit_char(uint_body(s)[i])
}

/// The value denoted by an unsigned decimal literal.
pub open spec fn uint_str_val(s: Seq<char>) -> int {
    digits_val(uint_body(s))
}

proof fn lemma_digits_val_nonneg(s: Seq<char>)
    requires
        forall|i: int| 0 <= i < s.len() ==> is_digit_char(s[i]),
    ensures
        digits_val(s) >= 0,
    decreases s.len(),
{
    if s.len() > 0 {
        assert forall|i: int| 0 <= i < s.drop_last().len() implies
            is_digit_char(s.drop_last()[i]) by {
            assert(s.drop_last()[i] == s[i]);
        }
        lemma_digits_val_nonneg(s.drop_last());
    }
}

/// Appending further digits can only grow the denoted value.
proof fn lemma_digits_val_prefix(s: Seq<char>, k: int)
    requires
        0 <= k <= s.len(),
        forall|i: int| 0 <= i < s.len() ==> is_digit_char(s[i]),
    ensures
        digits_val(s) >= digits_val(s.take(k)),
    decreases s.len() - k,
{
    if k < s.len() {
        lemma_digits_val_prefix(s, k + 1);
        assert(s.take(k + 1).drop_last() =~= s.take(k));
        assert(s.take(k + 1).last() == s[k]);
        assert forall|i: int| 0 <= i < s.take(k).len() implies
            is_digit_char(s.take(k)[i]) by {
            assert(s.take(k)[i] == s[i]);
        }
        lemma_digits_val_nonneg(s.take(k));
        assert(digits_val(s.take(k + 1)) >= digits_val(s.take(k)));
    } else {
        assert(s.take(k) =~= s);
    }
}

/// Parse an unsigned decimal literal (optional `+`, then digits) into a
/// `usize`; `None` on malformed input or a value over `usize::MAX`.
pub fn parse_usize(s: &str) -> (r: Option<usize>)
    ensures
        r is Some <==> is_uint_str(s@) && uint_str_val(s@) <= usize::MAX,
        r matches Some(v) ==> v == uint_str_val(s@),
{
    let n = s.unicode_len();
    let start: usize = if n > 0 && s.get_char(0) == '+' {
        1
    } else {
        0
    };
    let ghost body = uint_body(s@);
    proof {
        if start == 1 {
            assert(body =~= s@.skip(1));
        } else {
            assert(body =~= s@);
        }
    }
    if start == n {
        return None;
    }
    let mut v: usize = 0;
    let mut i: usize = start;
    while i < n
        invariant
            n == s@.len(),
            start <= i <= n,
            start < n,
            body == uint_body(s@),
            body.len() == n - start,
            forall|j: int| 0 <= j < body.len() ==> body[j] == s@[start + j],
            forall|j: int| 0 <= j < i - start ==> is_digit_char(body[j]),
            v == digits_val(body.take(i - start)),
        decreases n - i,
    {
        let c = s.get_char(i);
        if !('0' <= c && c <= '9') {
            proof {
                assert(body[i - start] == s@[i as int]);
                assert(!is_digit_char(body[i - start]));
            }
            return None;
        }
        let d: usize = (c as u32 as usize) - ('0' as u32 as usize);
        let ghost prefix = body.take(i - start);
        let next = match v.checked_mul(10) {
            Some(m) => m.checked_add(d),
            None => None,
        };
        proof {
            assert(body[i - start] == s@[i as int]);
            assert(body.take(i + 1 - start).drop_last() =~= prefix);
            assert(body.take(i + 1 - start).last() == body[i - start]);
            assert(digits_val(body.take(i + 1 - start)) ==
                v * 10 + (c as u32 - '0' as u32));
        }
        match next {
            Some(nv) => {
                v = nv;
            },
            None => {
                // The value so far already exceeds usize::MAX, so the whole
                // literal does, whatever follows.
                proof {
                    if is_uint_str(s@) {
                        lemma_digits_val_prefix(body, i + 1 - start);
                        assert(uint_str_val(s@) >= digits_val(body.take(i + 1 - start)));
                    }
                }
                return None;
            },
        }
        i += 1;
    }
    proof {
        assert(body.take(n - start) =~= body);
        assert(is_uint_str(s@));
        assert(v == uint_str_val(s@));
    }
    Some(v)
}

/// Case-insensitive (ASCII) equality of one character against its
/// lower-case counterpart.
pub open spec fn lower_eq_char(a: char, b: char) -> bool {
    ||| a == b
    ||| ('A' as u32 <= a as u32 && a as u32 <= 'Z' as u32 && a as u32 + 32 == b as u32)
}

/// Whether `tok` equals the lower-case keyword `kw` up to ASCII case.
pub open spec fn matches_keyword(tok: Seq<char>, kw: Seq<char>) -> bool {
    &&& tok.len() == kw.len()
    &&& forall|i: int| 0 <= i < tok.len() ==> lower_eq_char(tok[i], kw[i])
}

/// Compare a token against a lower-case keyword, ignoring ASCII case.
pub fn token_matches(tok: &str, kw: &str) -> (b: bool)
    ensures
        b == matches_keyword(tok@, kw@),
{
    let n = tok.unicode_len();
    if n != kw.unicode_len() {
        return false;
    }
    let mut i: usize = 0;
    while i < n
        invariant
            n == tok@.len(),
            n == kw@.len(),
            i <= n,
            forall|j: int| 0 <= j < i ==> lower_eq_char(tok@[j], kw@[j]),
        decreases n - i,
    {
        let a = tok.get_char(i);
        let b = kw.get_char(i);
        let au = a as u32;
        let bu = b as u32;
        if !(a == b || ('A' as u32 <= au && au <= 'Z' as u32 && au + 32 == bu)) {
            return false;
        }
        i += 1;
    }
    true
}

/// Index of the first occurrence of `c`, or the length of `s` if absent.
pub open spec fn find_char(s: Seq<char>, c: char) -> int
    decreases s.len(),
{
    if s.len() == 0 {
        0
    } else if s[0] == c {
        0
    } else {
        1 + find_char(s.drop_first(), c)
    }
}

pub proof fn lemma_find_char(s: Seq<char>, c: char)
    ensures
        0 <= find_char(s, c) <= s.len(),
        find_char(s, c) < s.len() ==> s[find_char(s, c)] == c,
        forall|j: int| 0 <= j < find_char(s, c) ==> s[j] != c,
    decreases s.len(),
{
    if s.len() > 0 && s[0] != c {
        lemma_find_char(s.drop_first(), c);
        assert forall|j: int| 0 <= j < find_char(s, c) implies s[j] != c by {
            if j > 0 {
                assert(s.drop_first()[j - 1] == s[j]);
            }
        }
    }
}

/// Find the first occurrence of `c` in `s`.
pub fn index_of_char(s: &str, c: char) -> (r: Option<usize>)
    ensures
        r matches Some(i) ==> i == find_char(s@, c) && i < s@.len(),
        r is None ==> find_char(s@, c) == s@.len(),
{
    let n = s.unicode_len();
    let mut i: usize = 0;
    proof {
        assert(s@.skip(0) =~= s@);
    }
    while i < n
        invariant
            n == s@.len(),
            i <= n,
            find_char(s@, c) == i + find_char(s@.skip(i as int), c),
            forall|j: int| 0 <= j < i ==> s@[j] != c,
        decreases n - i,
    {
        proof {
            assert(s@.skip(i as int)[0] == s@[i as int]);
        }
        if s.get_char(i) == c {
            return Some(i);
        }
        proof {
            assert(s@.skip(i as int).drop_first() =~= s@.skip(i + 1));
        }
        i += 1;
    }
    proof {
        assert(s@.skip(n as int) =~= Seq::<char>::empty());
    }
    None
}

/// Tokens joined by single spaces.
pub open spec fn join_spaced(ts: Seq<Seq<char>>) -> Seq<char>
    decreases ts.len(),
{
    if ts.len() == 0 {
        Seq::empty()
    } else if ts.len() == 1 {
        ts[0]
    } else {
        join_spaced(ts.drop_last()) + seq![' '] + ts.last()
    }
}

/// Join `tokens[from..]` with single spaces.
pub fn join_tokens_from(tokens: &Vec<String>, from: usize) -> (r: String)
    requires
        from <= tokens@.len(),
    ensures
        r@ == join_spaced(tokens.deep_view().skip(from as int)),
{
    let ghost ts = tokens.deep_view().skip(from as int);
    let mut r = String::new();
    let mut k: usize = from;
    proof {
        reveal_strlit(" ");
        assert(ts.take(0) =~= Seq::<Seq<char>>::empty());
        assert(r@ =~= join_spaced(ts.take(0)));
    }
    while k < tokens.len()
        invariant
            from <= k <= tokens@.len(),
            ts == tokens.deep_view().skip(from as int),
            ts.len() == tokens@.len() - from,
            forall|j: int| 0 <= j < ts.len() ==> ts[j] == tokens@[from + j]@,
            r@ == join_spaced(ts.take(k - from)),
        decreases tokens@.len() - k,
    {
        let ghost r0 = r@;
        if k > from {
            r.append(" ");
        }
        r.append(tokens[k].as_str());
        proof {
            reveal_strlit(" ");
            assert(" "@ =~= seq![' ']);
            let m = k - from;
            assert(ts.take(m + 1).drop_last() =~= ts.take(m));
            assert(ts.take(m + 1).last() == ts[m]);
            if m == 0 {
                assert(join_spaced(ts.take(1)) == ts.take(1)[0]);
                assert(r@ =~= ts[0]);
            } else {
                assert(r@ =~= join_spaced(ts.take(m)) + seq![' '] + ts[m]);
            }
        }
        k += 1;
    }
    proof {
        assert(ts.take(tokens@.len() - from) =~= ts);
    }
    r
}

/// `s` with its leading ASCII whitespace removed.
pub open spec fn trim_start_spec(s: Seq<char>) -> Seq<char>
    decreases s.len(),
{
    if s.len() > 0 && is_space_char(s[0]) {
        trim_start_spec(s.drop_first())
    } else {
        s
    }
}

/// `s` with its trailing ASCII whitespace removed.
pub open spec fn trim_end_spec(s: Seq<char>) -> Seq<char>
    decreases s.len(),
{
    if s.len() > 0 && is_space_char(s.last()) {
        trim_end_spec(s.drop_last())
    } else {
        s
    }
}

/// `s` without leading and trailing ASCII whitespace.
pub open spec fn trim_spec(s: Seq<char>) -> Seq<char> {
    trim_end_spec(trim_start_spec(s))
}

/// Index of the first character that is not ASCII whitespace.
fn first_non_space(s: &str) -> (a: usize)
    ensures
        a <= s@.len(),
        trim_start_spec(s@) == s@.skip(a as int),
{
    let n = s.unicode_len();
    let mut a: usize = 0;
    proof {
        assert(s@.skip(0) =~= s@);
    }
    while a < n
        invariant
            n == s@.len(),
            a <= n,
            trim_start_spec(s@) == trim_start_spec(s@.skip(a as int)),
        decreases n - a,
    {
        proof {
            assert(s@.skip(a as int)[0] == s@[a as int]);
        }
        let c = s.get_char(a);
        if !(c == ' ' || c == '\t' || c == '\r' || c == '\n') {
            return a;
        }
        proof {
            assert(s@.skip(a as int).drop_first() =~= s@.skip(a + 1));
        }
        a += 1;
    }
    proof {
        assert(s@.skip(a as int) =~= Seq::<char>::empty());
    }
    a
}

/// One past the last character of `s[a..]` that is not ASCII whitespace.
fn last_non_space_after(s: &str, a: usize) -> (b: usize)
    requires
        a <= s@.len(),
    ensures
        a <= b <= s@.len(),
        trim_end_spec(s@.skip(a as int)) == s@.subrange(a as int, b as int),
{
    let n = s.unicode_len();
    let mut b: usize = n;
    proof {
        assert(s@.subrange(a as int, n as int) =~= s@.skip(a as int));
    }
    while b > a
        invariant
            n == s@.len(),
            a <= b <= n,
            trim_end_spec(s@.skip(a as int)) == trim_end_spec(s@.subrange(a as int, b as int)),
        decreases b,
    {
        proof {
            assert(s@.subrange(a as int, b as int).last() == s@[b - 1]);
        }
        let c = s.get_char(b - 1);
        if !(c == ' ' || c == '\t' || c == '\r' || c == '\n') {
            return b;
        }
        proof {
            assert(s@.subrange(a as int, b as int).drop_last() =~=
                s@.subrange(a as int, b - 1));
        }
        b -= 1;
    }
    proof {
        assert(s@.subrange(a as int, b as int) =~= Seq::<char>::empty());
    }
    b
}

/// Strip leading and trailing ASCII whitespace.
pub fn trim(s: &str) -> (r: String)
    ensures
        r@ == trim_spec(s@),
{
    let a = first_non_space(s);
    let b = last_non_space_after(s, a);
    s.substring_char(a, b).to_owned()
}

/// The segments of `s` split at `\n` line endings, with one `\r`
/// immediately before each `\n` removed; a final ending yields no empty
/// last segment.
pub open spec fn lines_of(s: Seq<char>) -> Seq<Seq<char>>
    decreases s.len(),
    via lines_of_decreases
{
    if s.len() == 0 {
        Seq::empty()
    } else {
        let k = find_char(s, '\n');
        if k == s.len() {
            seq![s]
        } else {
            let line = if k > 0 && s[k - 1] == '\r' {
                s.take(k - 1)
            } else {
                s.take(k)
            };
            seq![line] + lines_of(s.skip(k + 1))
        }
    }
}

#[via_fn]
proof fn lines_of_decreases(s: Seq<char>) {
    lemma_find_char(s, '\n');
}

/// Absolute index of the first `\n` at or after `from`, or the length of
/// `s` if there is none.
fn newline_from(s: &str, from: usize) -> (k: usize)
    requires
        from <= s@.len(),
    ensures
        from <= k <= s@.len(),
        k - from == find_char(s@.skip(from as int), '\n'),
        k < s@.len() ==> s@[k as int] == '\n',
    decreases s@.len() - from,
{
    let n = s.unicode_len();
    let mut k: usize = from;
    proof {
        assert(s@.skip(from as int).skip(0) =~= s@.skip(from as int));
    }
    while k < n
        invariant
            n == s@.len(),
            from <= k <= n,
            find_char(s@.skip(from as int), '\n') ==
                k - from + find_char(s@.skip(k as int), '\n'),
        decreases n - k,
    {
        proof {
            assert(s@.skip(k as int)[0] == s@[k as int]);
        }
        if s.get_char(k) == '\n' {
            return k;
        }
        proof {
            assert(s@.skip(k as int).drop_first() =~= s@.skip(k + 1));
        }
        k += 1;
    }
    proof {
        assert(s@.skip(k as int) =~= Seq::<char>::empty());
    }
    k
}

/// Split command output into its lines, as `\n`-terminated segments with
/// any `\r` before the `\n` removed.
pub fn split_lines(s: &str) -> (r: Vec<String>)
    ensures
        r.deep_view() == lines_of(s@),
{
    let n = s.unicode_len();
    let mut r: Vec<String> = Vec::new();
    let mut i: usize = 0;
    proof {
        assert(s@.skip(0) =~= s@);
        assert(r.deep_view() =~= Seq::<Seq<char>>::empty());
        assert(r.deep_view() + lines_of(s@) =~= lines_of(s@));
    }
    while i < n
        invariant
            n == s@.len(),
            i <= n,
            r.deep_view() + lines_of(s@.skip(i as int)) == lines_of(s@),
        decreases n - i,
    {
        let ghost rest = s@.skip(i as int);
        let k = newline_from(s, i);
        let ghost kr = k - i;
        let end = if k < n && k > i && s.get_char(k - 1) == '\r' {
            k - 1
        } else {
            k
        };
        proof {
            lemma_find_char(rest, '\n');
            if kr > 0 {
                assert(rest[kr - 1] == s@[k - 1]);
            }
            if kr < rest.len() {
                let line = if kr > 0 && rest[kr - 1] == '\r' {
                    rest.take(kr - 1)
                } else {
                    rest.take(kr)
                };
                assert(lines_of(rest) == seq![line] + lines_of(rest.skip(kr + 1)));
                if kr > 0 && rest[kr - 1] == '\r' {
                    assert(rest.take(kr - 1) =~= s@.subrange(i as int, k - 1));
                } else {
                    assert(rest.take(kr) =~= s@.subrange(i as int, k as int));
                }
                assert(rest.skip(kr + 1) =~= s@.skip(k + 1));
            } else {
                assert(k == n);
                assert(lines_of(rest) == seq![rest]);
                assert(rest =~= s@.subrange(i as int, n as int));
            }
        }
        let ghost pre = r.deep_view();
        let line = s.substring_char(i, end).to_owned();
        r.push(line);
        proof {
            assert(r.deep_view() =~= pre.push(line@));
        }
        if k == n {
            proof {
                assert(pre.push(line@) + lines_of(Seq::<char>::empty()) =~=
                    pre + lines_of(rest));
                assert(s@.skip(n as int) =~= Seq::<char>::empty());
            }
            i = n;
        } else {
            proof {
                assert(pre.push(line@) + lines_of(s@.skip(k + 1)) =~=
                    pre + lines_of(rest));
            }
            i = k + 1;
        }
    }
    proof {
        assert(s@.skip(n as int) =~= Seq::<char>::empty());
    }
    r
}

} // verus!
