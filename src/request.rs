//! Extraction of the target path from the request line.
use vstd::prelude::*;

verus! {

/// Unicode `White_Space` characters, the separators of request-line tokens.
pub open spec fn is_space_spec(c: char) -> bool {
    ||| ('\t' <= c && c <= '\r')
    ||| c == ' '
    ||| c == '\u{85}'
    ||| c == '\u{a0}'
    ||| c == '\u{1680}'
    ||| ('\u{2000}' <= c && c <= '\u{200a}')
    ||| c == '\u{2028}'
    ||| c == '\u{2029}'
    ||| c == '\u{202f}'
    ||| c == '\u{205f}'
    ||| c == '\u{3000}'
}

/// Index of the first newline at or after `i`, or the length of `s`.
pub open spec fn line_end(s: Seq<char>, i: int) -> int
    decreases s.len() - i,
{
    if i >= s.len() {
        s.len() as int
    } else if s[i] == '\n' {
        i
    } else {
        line_end(s, i + 1)
    }
}

/// First index at or after `i`, below `end`, that holds no whitespace, or `end`.
pub open spec fn skip_space(s: Seq<char>, i: int, end: int) -> int
    decreases end - i,
{
    if i >= end {
        end
    } else if !is_space_spec(s[i]) {
        i
    } else {
        skip_space(s, i + 1, end)
    }
}

/// First index at or after `i`, below `end`, that holds whitespace, or `end`.
pub open spec fn token_end(s: Seq<char>, i: int, end: int) -> int
    decreases end - i,
{
    if i >= end {
        end
    } else if is_space_spec(s[i]) {
        i
    } else {
        token_end(s, i + 1, end)
    }
}

/// The target path of a request: the second whitespace-separated token of
/// its first line, or `/` when that line has fewer than two tokens.
pub open spec fn target_of(s: Seq<char>) -> Seq<char> {
    let end = line_end(s, 0);
    let a0 = skip_space(s, 0, end);
    let e0 = token_end(s, a0, end);
    let a1 = skip_space(s, e0, end);
    let e1 = token_end(s, a1, end);
    if a0 < end && a1 < end {
        s.subrange(a1, e1)
    } else {
        seq!['/']
    }
}

proof fn lemma_line_end_bounds(s: Seq<char>, i: int)
    requires
        0 <= i <= s.len(),
    ensures
        i <= line_end(s, i) <= s.len(),
    decreases s.len() - i,
{
    if i < s.len() && s[i] != '\n' {
        lemma_line_end_bounds(s, i + 1);
    }
}

proof fn lemma_skip_space_bounds(s: Seq<char>, i: int, end: int)
    requires
        i <= end,
    ensures
        i <= skip_space(s, i, end) <= end,
    decreases end - i,
{
    if i < end && is_space_spec(s[i]) {
        lemma_skip_space_bounds(s, i + 1, end);
    }
}

proof fn lemma_token_end_bounds(s: Seq<char>, i: int, end: int)
    requires
        i <= end,
    ensures
        i <= token_end(s, i, end) <= end,
    decreases end - i,
{
    if i < end && !is_space_spec(s[i]) {
        lemma_token_end_bounds(s, i + 1, end);
    }
}

/// A token that runs from `i` up to the whitespace at `j` ends there.
pub proof fn lemma_token_end_at(s: Seq<char>, i: int, j: int, end: int)
    requires
        0 <= i <= j < end <= s.len(),
        forall|k: int| i <= k < j ==> !is_space_spec(#[trigger] s[k]),
        is_space_spec(s[j]),
    ensures
        token_end(s, i, end) == j,
    decreases j - i,
{
    if i < j {
        lemma_token_end_at(s, i + 1, j, end);
    }
}

/// With no newline among the characters `i..=j`, the line runs past `j`.
pub proof fn lemma_line_end_past(s: Seq<char>, i: int, j: int)
    requires
        0 <= i <= j < s.len(),
        forall|k: int| i <= k <= j ==> #[trigger] s[k] != '\n',
    ensures
        line_end(s, i) > j,
    decreases j - i,
{
    assert(s[i] != '\n');
    if i < j {
        lemma_line_end_past(s, i + 1, j);
    } else {
        lemma_line_end_bounds(s, j + 1);
    }
}

/// In a request line `method` `' '` `target` `' '` ..., where neither the
/// method nor the target holds whitespace and both are non-empty, the target
/// is what the line yields.
pub proof fn lemma_target_of_request_line(method: Seq<char>, target: Seq<char>, tail: Seq<char>)
    requires
        method.len() > 0,
        target.len() > 0,
        forall|k: int| 0 <= k < method.len() ==> !is_space_spec(#[trigger] method[k]),
        forall|k: int| 0 <= k < target.len() ==> !is_space_spec(#[trigger] target[k]),
    ensures
        target_of(method + seq![' '] + target + seq![' '] + tail) == target,
{
    let s = method + seq![' '] + target + seq![' '] + tail;
    let m = method.len() as int;
    let j = m + 1 + target.len();
    assert forall|k: int| 0 <= k <= j implies #[trigger] s[k] != '\n' by {
        if k < m {
            assert(s[k] == method[k]);
        } else if m < k < j {
            assert(s[k] == target[k - m - 1]);
        }
    }
    lemma_line_end_past(s, 0, j);
    let end = line_end(s, 0);
    lemma_line_end_bounds(s, 0);
    assert(s[0] == method[0]);
    assert(skip_space(s, 0, end) == 0);
    assert forall|k: int| 0 <= k < m implies !is_space_spec(#[trigger] s[k]) by {
        assert(s[k] == method[k]);
    }
    lemma_token_end_at(s, 0, m, end);
    assert(s[m + 1] == target[0]);
    assert(skip_space(s, m, end) == skip_space(s, m + 1, end));
    assert(skip_space(s, m + 1, end) == m + 1);
    assert forall|k: int| m + 1 <= k < j implies !is_space_spec(#[trigger] s[k]) by {
        assert(s[k] == target[k - m - 1]);
    }
    lemma_token_end_at(s, m + 1, j, end);
    assert(s.subrange(m + 1, j) =~= target);
}

/// Whether `c` is a Unicode whitespace character.
pub fn is_space(c: char) -> (r: bool)
    ensures
        r == is_space_spec(c),
{
    ('\t' <= c && c <= '\r') || c == ' ' || c == '\u{85}' || c == '\u{a0}' || c == '\u{1680}'
        || ('\u{2000}' <= c && c <= '\u{200a}') || c == '\u{2028}' || c == '\u{2029}'
        || c == '\u{202f}' || c == '\u{205f}' || c == '\u{3000}'
}

fn find_line_end(s: &str, len: usize) -> (r: usize)
    requires
        len == s@.len(),
    ensures
        r == line_end(s@, 0),
{
    let mut i: usize = 0;
    while i < len
        invariant
            len == s@.len(),
            0 <= i <= len,
            line_end(s@, 0) == line_end(s@, i as int),
        decreases len - i,
    {
        if s.get_char(i) == '\n' {
            return i;
        }
        i = i + 1;
    }
    i
}

fn find_skip_space(s: &str, start: usize, end: usize) -> (r: usize)
    requires
        start <= end <= s@.len(),
    ensures
        r == skip_space(s@, start as int, end as int),
{
    let mut i: usize = start;
    while i < end
        invariant
            start <= i <= end <= s@.len(),
            skip_space(s@, start as int, end as int) == skip_space(s@, i as int, end as int),
        decreases end - i,
    {
        if !is_space(s.get_char(i)) {
            return i;
        }
        i = i + 1;
    }
    i
}

fn find_token_end(s: &str, start: usize, end: usize) -> (r: usize)
    requires
        start <= end <= s@.len(),
    ensures
        r == token_end(s@, start as int, end as int),
{
    let mut i: usize = start;
    while i < end
        invariant
            start <= i <= end <= s@.len(),
            token_end(s@, start as int, end as int) == token_end(s@, i as int, end as int),
        decreases end - i,
    {
        if is_space(s.get_char(i)) {
            return i;
        }
        i = i + 1;
    }
    i
}

/// The raw target path of a request; any method is accepted.
pub fn parse_path(request: &str) -> (r: String)
    ensures
        r@ == target_of(request@),
{
    let len = request.unicode_len();
    let end = find_line_end(request, len);
    proof {
        lemma_line_end_bounds(request@, 0);
    }
    let a0 = find_skip_space(request, 0, end);
    proof {
        lemma_skip_space_bounds(request@, 0, end as int);
    }
    let e0 = find_token_end(request, a0, end);
    proof {
        lemma_token_end_bounds(request@, a0 as int, end as int);
    }
    let a1 = find_skip_space(request, e0, end);
    proof {
        lemma_skip_space_bounds(request@, e0 as int, end as int);
    }
    let e1 = find_token_end(request, a1, end);
    proof {
        lemma_token_end_bounds(request@, a1 as int, end as int);
    }
    if a0 < end && a1 < end {
        String::from_str(request.substring_char(a1, e1))
    } else {
        let r = String::from_str("/");
        proof {
            reveal_strlit("/");
            assert(r@ =~= seq!['/']);
        }
        r
    }
}

} // verus!
