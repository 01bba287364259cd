//! Character-level model of the Bristol text format: splitting a text into
//! lines and a line into whitespace-separated tokens, both as spec-level
//! definitions and as verified executable functions.

use vstd::prelude::*;
use vstd::string::*;

verus! {

/// The whitespace characters recognized between tokens and around lines.
pub open spec fn is_space_char(c: char) -> bool {
    c == ' ' || c == '\t' || c == '\n' || c == '\r' || c == '\u{b}' || c == '\u{c}'
}

/// A sequence of characters is blank when every character is whitespace.
pub open spec fn blank(s: Seq<char>) -> bool {
    forall|i: int| 0 <= i < s.len() ==> is_space_char(s[i])
}

/// Views of a sequence of strings.
pub open spec fn str_views(ss: Seq<String>) -> Seq<Seq<char>> {
    ss.map_values(|s: String| s@)
}

/// The first index at or after `i` holding a whitespace character, or the
/// length of `s` when there is none.
pub open spec fn token_end(s: Seq<char>, i: int) -> int
    decreases s.len() - i,
{
    if i < 0 || i >= s.len() {
        s.len() as int
    } else if is_space_char(s[i]) {
        i
    } else {
        token_end(s, i + 1)
    }
}

pub proof fn lemma_token_end_bounds(s: Seq<char>, i: int)
    requires
        0 <= i <= s.len(),
    ensures
        i <= token_end(s, i) <= s.len(),
        forall|j: int| i <= j < token_end(s, i) ==> !is_space_char(s[j]),
        token_end(s, i) < s.len() ==> is_space_char(s[token_end(s, i)]),
    decreases s.len() - i,
{
    if i < s.len() && !is_space_char(s[i]) {
        lemma_token_end_bounds(s, i + 1);
    }
}

/// The whitespace-separated tokens of `s`, starting the scan at index `i`.
pub open spec fn tokens_from(s: Seq<char>, i: int) -> Seq<Seq<char>>
    decreases s.len() - i,
{
    if i < 0 || i >= s.len() {
        Seq::empty()
    } else if is_space_char(s[i]) {
        tokens_from(s, i + 1)
    } else {
        proof {
            lemma_token_end_bounds(s, i + 1);
        }
        seq![s.subrange(i, token_end(s, i))] + tokens_from(s, token_end(s, i))
    }
}

/// The whitespace-separated tokens of a line.
pub open spec fn tokens_of(s: Seq<char>) -> Seq<Seq<char>> {
    tokens_from(s, 0)
}

/// A line splits into no tokens exactly when it is blank from `i` on.
pub proof fn lemma_tokens_from_empty(s: Seq<char>, i: int)
    requires
        0 <= i <= s.len(),
    ensures
        tokens_from(s, i).len() == 0 <==> (forall|j: int| i <= j < s.len() ==> is_space_char(s[j])),
    decreases s.len() - i,
{
    if i < s.len() {
        if is_space_char(s[i]) {
            lemma_tokens_from_empty(s, i + 1);
        }
    }
}

pub proof fn lemma_blank_no_tokens(s: Seq<char>)
    ensures
        tokens_of(s).len() == 0 <==> blank(s),
{
    lemma_tokens_from_empty(s, 0);
}

/// The first index at or after `i` holding a newline, or the length of `s`.
pub open spec fn line_end(s: Seq<char>, i: int) -> int
    decreases s.len() - i,
{
    if i < 0 || i >= s.len() {
        s.len() as int
    } else if s[i] == '\n' {
        i
    } else {
        line_end(s, i + 1)
    }
}

pub proof fn lemma_line_end_bounds(s: Seq<char>, i: int)
    requires
        0 <= i <= s.len(),
    ensures
        i <= line_end(s, i) <= s.len(),
        forall|j: int| i <= j < line_end(s, i) ==> s[j] != '\n',
        line_end(s, i) < s.len() ==> s[line_end(s, i)] == '\n',
    decreases s.len() - i,
{
    if i < s.len() && s[i] != '\n' {
        lemma_line_end_bounds(s, i + 1);
    }
}

/// The lines of `s` from index `i` on, split on newline characters.  A text
/// with no newline is a single line; a final newline yields a final empty
/// line.
pub open spec fn lines_from(s: Seq<char>, i: int) -> Seq<Seq<char>>
    decreases s.len() - i,
{
    if i < 0 || i > s.len() {
        Seq::empty()
    } else {
        let j = line_end(s, i);
        if j < s.len() {
            proof {
                lemma_line_end_bounds(s, i);
            }
            seq![s.subrange(i, j)] + lines_from(s, j + 1)
        } else {
            seq![s.subrange(i, s.len() as int)]
        }
    }
}

/// The lines of a text.
pub open spec fn spec_lines(s: Seq<char>) -> Seq<Seq<char>> {
    lines_from(s, 0)
}

/// The token lists of the non-blank lines, in order: what a reader that
/// skips blank lines and tokenizes the rest observes of a line sequence.
pub open spec fn toklines(ls: Seq<Seq<char>>) -> Seq<Seq<Seq<char>>>
    decreases ls.len(),
{
    if ls.len() == 0 {
        Seq::empty()
    } else if tokens_of(ls[0]).len() == 0 {
        toklines(ls.skip(1))
    } else {
        seq![tokens_of(ls[0])] + toklines(ls.skip(1))
    }
}

/// A well-formed token: nonempty and free of whitespace.  Only such tokens
/// survive a round trip through a rendered line.
pub open spec fn wf_token(t: Seq<char>) -> bool {
    t.len() > 0 && (forall|i: int| 0 <= i < t.len() ==> !is_space_char(t[i]))
}

/// The continuation of a joined line: one space before each further token.
pub open spec fn render_rest(ts: Seq<Seq<char>>) -> Seq<char>
    decreases ts.len(),
{
    if ts.len() == 0 {
        Seq::empty()
    } else {
        render_rest(ts.drop_last()) + seq![' '] + ts.last()
    }
}

/// Tokens joined by single spaces, with nothing before or after.
pub open spec fn render_tokens(ts: Seq<Seq<char>>) -> Seq<char> {
    if ts.len() == 0 {
        Seq::empty()
    } else {
        ts[0] + render_rest(ts.skip(1))
    }
}

/// Appending one token to a joined line appends one space and the token.
pub proof fn lemma_render_tokens_push(ts: Seq<Seq<char>>, t: Seq<char>)
    ensures
        render_tokens(ts.push(t)) == if ts.len() == 0 {
            t
        } else {
            render_tokens(ts) + seq![' '] + t
        },
{
    if ts.len() == 0 {
        assert(ts.push(t)[0] == t);
        assert(ts.push(t).skip(1) =~= Seq::<Seq<char>>::empty());
        assert(render_tokens(ts.push(t)) =~= t);
    } else {
        let u = ts.push(t).skip(1);
        assert(u =~= ts.skip(1).push(t));
        assert(u.drop_last() =~= ts.skip(1));
        assert(u.last() == t);
        assert(render_rest(u) == render_rest(ts.skip(1)) + seq![' '] + t);
        assert(ts.push(t)[0] == ts[0]);
        assert(render_tokens(ts.push(t)) =~= render_tokens(ts) + seq![' '] + t);
    }
}

/// Unfolding a joined line from the front: the first token, a space, the rest.
pub proof fn lemma_render_rest_front(u: Seq<Seq<char>>)
    requires
        u.len() > 0,
    ensures
        render_rest(u) == seq![' '] + u[0] + render_rest(u.skip(1)),
    decreases u.len(),
{
    if u.len() == 1 {
        assert(u.drop_last().len() == 0);
        assert(u.skip(1) =~= Seq::<Seq<char>>::empty());
        assert(render_rest(u.drop_last()) =~= Seq::<char>::empty());
        assert(render_rest(u.skip(1)) =~= Seq::<char>::empty());
        assert(render_rest(u) == render_rest(u.drop_last()) + seq![' '] + u.last());
        assert(render_rest(u) =~= seq![' '] + u[0] + render_rest(u.skip(1)));
    } else {
        let v = u.drop_last();
        lemma_render_rest_front(v);
        assert(v[0] == u[0]);
        assert(v.skip(1) =~= u.skip(1).drop_last());
        assert(u.skip(1).last() == u.last());
        assert(render_rest(u.skip(1)) == render_rest(u.skip(1).drop_last()) + seq![' ']
            + u.last());
        assert(render_rest(u) =~= seq![' '] + u[0] + render_rest(u.skip(1)));
    }
}

/// Scanning a run of non-space characters ends at its first space.
proof fn lemma_token_end_run(s: Seq<char>, i: int, k: int)
    requires
        0 <= i <= k <= s.len(),
        forall|j: int| i <= j < k ==> !is_space_char(s[j]),
        k == s.len() || is_space_char(s[k]),
    ensures
        token_end(s, i) == k,
    decreases k - i,
{
    if i < k {
        lemma_token_end_run(s, i + 1, k);
    }
}

proof fn lemma_token_end_concat_right(p: Seq<char>, u: Seq<char>, k: int)
    requires
        0 <= k <= u.len(),
    ensures
        token_end(p + u, p.len() + k) == p.len() + token_end(u, k),
    decreases u.len() - k,
{
    let s = p + u;
    if k < u.len() {
        assert(s[p.len() + k] == u[k]);
        if !is_space_char(u[k]) {
            lemma_token_end_concat_right(p, u, k + 1);
        }
    }
}

proof fn lemma_tokens_from_concat_right(p: Seq<char>, u: Seq<char>, k: int)
    requires
        0 <= k <= u.len(),
    ensures
        tokens_from(p + u, p.len() + k) == tokens_from(u, k),
    decreases u.len() - k,
{
    let s = p + u;
    if k < u.len() {
        assert(s[p.len() + k] == u[k]);
        if is_space_char(u[k]) {
            lemma_tokens_from_concat_right(p, u, k + 1);
        } else {
            lemma_token_end_concat_right(p, u, k);
            lemma_token_end_bounds(u, k);
            let e = token_end(u, k);
            assert(s.subrange(p.len() + k, p.len() + e) =~= u.subrange(k, e));
            lemma_tokens_from_concat_right(p, u, e);
            assert(tokens_from(s, p.len() + k) =~= tokens_from(u, k));
        }
    } else {
        assert(tokens_from(s, p.len() + k) =~= Seq::<Seq<char>>::empty());
        assert(tokens_from(u, k) =~= Seq::<Seq<char>>::empty());
    }
}

/// A well-formed token followed by whitespace-or-nothing tokenizes to itself
/// in front of whatever follows.
pub proof fn lemma_tokens_token_prepend(t: Seq<char>, u: Seq<char>)
    requires
        wf_token(t),
        u.len() == 0 || is_space_char(u[0]),
    ensures
        tokens_of(t + u) == seq![t] + tokens_of(u),
{
    let s = t + u;
    assert(forall|j: int| 0 <= j < t.len() ==> !is_space_char(s[j]));
    if u.len() == 0 {
        lemma_token_end_run(s, 0, t.len() as int);
    } else {
        assert(is_space_char(s[t.len() as int]));
        lemma_token_end_run(s, 0, t.len() as int);
    }
    assert(token_end(s, 0) == t.len());
    assert(s.subrange(0, t.len() as int) =~= t);
    lemma_tokens_from_concat_right(t, u, 0);
    assert(tokens_of(s) =~= seq![t] + tokens_of(u));
}

/// Joining well-formed tokens with single spaces and splitting again gives
/// the tokens back.
pub proof fn lemma_tokens_of_render_tokens(ts: Seq<Seq<char>>)
    requires
        forall|i: int| 0 <= i < ts.len() ==> wf_token(#[trigger] ts[i]),
    ensures
        tokens_of(render_tokens(ts)) == ts,
    decreases ts.len(),
{
    if ts.len() == 0 {
        lemma_tokens_from_empty(render_tokens(ts), 0);
        assert(tokens_of(render_tokens(ts)) =~= ts);
    } else if ts.len() == 1 {
        assert(ts.skip(1) =~= Seq::<Seq<char>>::empty());
        assert(render_tokens(ts) =~= ts[0] + Seq::<char>::empty());
        lemma_tokens_token_prepend(ts[0], Seq::empty());
        assert(tokens_of(Seq::<char>::empty()) =~= Seq::<Seq<char>>::empty());
        assert(tokens_of(render_tokens(ts)) =~= ts);
    } else {
        lemma_render_rest_front(ts.skip(1));
        let rest = render_tokens(ts.skip(1));
        assert(ts.skip(1)[0] == ts[1]);
        assert(ts.skip(1).skip(1) =~= ts.skip(2));
        assert(render_rest(ts.skip(1)) =~= seq![' '] + rest) by {
            assert(rest =~= ts[1] + render_rest(ts.skip(1).skip(1)));
        }
        let u = seq![' '] + rest;
        assert(render_tokens(ts) =~= ts[0] + u);
        lemma_tokens_token_prepend(ts[0], u);
        lemma_tokens_from_concat_right(seq![' '], rest, 0);
        assert(tokens_of(u) == tokens_from(u, 1)) by {
            assert(is_space_char(u[0]));
        }
        assert(tokens_of(u) == tokens_of(rest)) by {
            assert(u =~= seq![' '] + rest);
        }
        assert(forall|i: int| 0 <= i < ts.skip(1).len() ==> wf_token(#[trigger] ts.skip(1)[i]));
        lemma_tokens_of_render_tokens(ts.skip(1));
        assert(tokens_of(render_tokens(ts)) =~= ts);
    }
}

proof fn lemma_line_end_run(s: Seq<char>, i: int, k: int)
    requires
        0 <= i <= k <= s.len(),
        forall|j: int| i <= j < k ==> s[j] != '\n',
        k == s.len() || s[k] == '\n',
    ensures
        line_end(s, i) == k,
    decreases k - i,
{
    if i < k {
        lemma_line_end_run(s, i + 1, k);
    }
}

proof fn lemma_line_end_concat_right(p: Seq<char>, u: Seq<char>, k: int)
    requires
        0 <= k <= u.len(),
    ensures
        line_end(p + u, p.len() + k) == p.len() + line_end(u, k),
    decreases u.len() - k,
{
    let s = p + u;
    if k < u.len() {
        assert(s[p.len() + k] == u[k]);
        if u[k] != '\n' {
            lemma_line_end_concat_right(p, u, k + 1);
        }
    }
}

proof fn lemma_lines_from_concat_right(p: Seq<char>, u: Seq<char>, k: int)
    requires
        0 <= k <= u.len(),
    ensures
        lines_from(p + u, p.len() + k) == lines_from(u, k),
    decreases u.len() - k,
{
    let s = p + u;
    lemma_line_end_concat_right(p, u, k);
    lemma_line_end_bounds(u, k);
    let e = line_end(u, k);
    assert(s.subrange(p.len() + k, p.len() + e) =~= u.subrange(k, e));
    if e < u.len() {
        lemma_lines_from_concat_right(p, u, e + 1);
        assert(lines_from(s, p.len() + k) =~= lines_from(u, k));
    } else {
        assert(s.subrange(p.len() + k, s.len() as int) =~= u.subrange(k, u.len() as int));
        assert(lines_from(s, p.len() + k) =~= lines_from(u, k));
    }
}

/// A newline-free line followed by a newline is the first line of the text.
pub proof fn lemma_lines_line_prepend(t: Seq<char>, u: Seq<char>)
    requires
        forall|i: int| 0 <= i < t.len() ==> t[i] != '\n',
    ensures
        spec_lines(t + seq!['\n'] + u) == seq![t] + spec_lines(u),
{
    let s = t + seq!['\n'] + u;
    assert(forall|j: int| 0 <= j < t.len() ==> s[j] != '\n');
    assert(s[t.len() as int] == '\n');
    lemma_line_end_run(s, 0, t.len() as int);
    assert(line_end(s, 0) == t.len());
    assert(s.subrange(0, t.len() as int) =~= t);
    assert(s =~= (t + seq!['\n']) + u);
    lemma_lines_from_concat_right(t + seq!['\n'], u, 0);
    assert(spec_lines(s) =~= seq![t] + spec_lines(u));
}

proof fn lemma_lines_from_append(s: Seq<char>, t: Seq<char>, i: int)
    requires
        0 <= i <= s.len(),
    ensures
        lines_from(s + seq!['\n'] + t, i) == lines_from(s, i) + spec_lines(t),
    decreases s.len() - i,
{
    let s2 = s + seq!['\n'] + t;
    lemma_line_end_bounds(s, i);
    let j = line_end(s, i);
    assert(forall|m: int| i <= m < j ==> s2[m] == s[m] && s2[m] != '\n');
    if j < s.len() {
        assert(s2[j] == s[j]);
        lemma_line_end_run(s2, i, j);
        assert(s2.subrange(i, j) =~= s.subrange(i, j));
        lemma_lines_from_append(s, t, j + 1);
        assert(lines_from(s2, i) =~= lines_from(s, i) + spec_lines(t));
    } else {
        assert(s2[s.len() as int] == '\n');
        lemma_line_end_run(s2, i, s.len() as int);
        assert(line_end(s2, i) == s.len());
        assert(s2.subrange(i, s.len() as int) =~= s.subrange(i, s.len() as int));
        assert(s2 =~= (s + seq!['\n']) + t);
        lemma_lines_from_concat_right(s + seq!['\n'], t, 0);
        assert(lines_from(s2, s.len() as int + 1) == spec_lines(t));
        assert(lines_from(s2, i) =~= lines_from(s, i) + spec_lines(t));
    }
}

/// A text, a newline, and a further text: the lines of both, in order.
pub proof fn lemma_lines_append(s: Seq<char>, t: Seq<char>)
    ensures
        spec_lines(s + seq!['\n'] + t) == spec_lines(s) + spec_lines(t),
{
    lemma_lines_from_append(s, t, 0);
}

/// Reading token lines across a concatenation of line sequences.
pub proof fn lemma_toklines_concat(a: Seq<Seq<char>>, b: Seq<Seq<char>>)
    ensures
        toklines(a + b) == toklines(a) + toklines(b),
    decreases a.len(),
{
    if a.len() == 0 {
        assert(a + b =~= b);
        assert(toklines(a) =~= Seq::<Seq<Seq<char>>>::empty());
        assert(toklines(a) + toklines(b) =~= toklines(b));
    } else {
        assert((a + b)[0] == a[0]);
        assert((a + b).skip(1) =~= a.skip(1) + b);
        lemma_toklines_concat(a.skip(1), b);
        if tokens_of(a[0]).len() == 0 {
            assert(toklines(a + b) =~= toklines(a) + toklines(b));
        } else {
            assert(toklines(a + b) =~= toklines(a) + toklines(b));
        }
    }
}

/// A line sequence contributes no token lines exactly when all its lines are
/// blank.
pub proof fn lemma_toklines_empty_iff_blank(ls: Seq<Seq<char>>)
    ensures
        toklines(ls).len() == 0 <==> (forall|i: int| 0 <= i < ls.len() ==> blank(ls[i])),
    decreases ls.len(),
{
    if ls.len() > 0 {
        lemma_blank_no_tokens(ls[0]);
        lemma_toklines_empty_iff_blank(ls.skip(1));
        if tokens_of(ls[0]).len() == 0 {
            if toklines(ls).len() == 0 {
                assert forall|i: int| 0 <= i < ls.len() implies blank(ls[i]) by {
                    if i > 0 {
                        assert(ls.skip(1)[i - 1] == ls[i]);
                        assert(blank(ls.skip(1)[i - 1]));
                    }
                }
            }
            if forall|i: int| 0 <= i < ls.len() ==> blank(ls[i]) {
                assert forall|j: int| 0 <= j < ls.skip(1).len() implies blank(ls.skip(1)[j]) by {
                    assert(ls.skip(1)[j] == ls[j + 1]);
                }
                assert(toklines(ls.skip(1)).len() == 0);
            }
        } else {
            assert(toklines(ls).len() > 0);
            assert(!blank(ls[0]));
        }
    }
}

proof fn lemma_lines_from_blank_iff(s: Seq<char>, i: int)
    requires
        0 <= i <= s.len(),
    ensures
        (forall|k: int| i <= k < s.len() ==> is_space_char(s[k])) <==> (forall|j: int|
            0 <= j < lines_from(s, i).len() ==> blank(lines_from(s, i)[j])),
    decreases s.len() - i,
{
    lemma_line_end_bounds(s, i);
    let e = line_end(s, i);
    let first = s.subrange(i, e);
    if e < s.len() {
        lemma_lines_from_blank_iff(s, e + 1);
        let rest = lines_from(s, e + 1);
        assert(lines_from(s, i) == seq![first] + rest);
        if (forall|j: int| 0 <= j < lines_from(s, i).len() ==> blank(lines_from(s, i)[j])) {
            assert(blank(lines_from(s, i)[0]));
            assert(lines_from(s, i)[0] == first);
            assert forall|j: int| 0 <= j < rest.len() implies blank(rest[j]) by {
                assert(lines_from(s, i)[j + 1] == rest[j]);
            }
            assert forall|k: int| i <= k < s.len() implies is_space_char(s[k]) by {
                if k < e {
                    assert(s[k] == first[k - i]);
                    assert(blank(first));
                } else if k == e {
                    assert(s[e] == '\n');
                }
            }
        }
        if (forall|k: int| i <= k < s.len() ==> is_space_char(s[k])) {
            assert(forall|k: int| e + 1 <= k < s.len() ==> is_space_char(s[k]));
            assert(forall|j: int| 0 <= j < rest.len() ==> blank(rest[j]));
            assert forall|j: int|
                0 <= j < lines_from(s, i).len() implies blank(lines_from(s, i)[j]) by {
                if j == 0 {
                    assert(lines_from(s, i)[0] == first);
                    assert forall|k: int| 0 <= k < first.len() implies is_space_char(
                        first[k],
                    ) by {
                        assert(first[k] == s[i + k]);
                    }
                } else {
                    assert(lines_from(s, i)[j] == rest[j - 1]);
                }
            }
        }
    } else {
        assert(lines_from(s, i) == seq![s.subrange(i, s.len() as int)]);
        assert(first =~= s.subrange(i, s.len() as int));
        if (forall|j: int| 0 <= j < lines_from(s, i).len() ==> blank(lines_from(s, i)[j])) {
            assert(lines_from(s, i)[0] == first);
            assert(blank(first));
            assert forall|k: int| i <= k < s.len() implies is_space_char(s[k]) by {
                assert(s[k] == first[k - i]);
            }
        }
        if (forall|k: int| i <= k < s.len() ==> is_space_char(s[k])) {
            assert forall|k: int| 0 <= k < first.len() implies is_space_char(first[k]) by {
                assert(first[k] == s[i + k]);
            }
            assert(blank(lines_from(s, i)[0]));
        }
    }
}

/// A text is blank exactly when each of its lines is blank.
pub proof fn lemma_blank_text_iff_blank_lines(s: Seq<char>)
    ensures
        blank(s) <==> (forall|j: int| 0 <= j < spec_lines(s).len() ==> blank(spec_lines(s)[j])),
{
    lemma_lines_from_blank_iff(s, 0);
}

proof fn lemma_render_rest_no_newline(ts: Seq<Seq<char>>)
    requires
        forall|i: int, k: int|
            0 <= i < ts.len() && 0 <= k < ts[i].len() ==> !is_space_char(#[trigger] ts[i][k]),
    ensures
        forall|k: int| 0 <= k < render_rest(ts).len() ==> render_rest(ts)[k] != '\n',
    decreases ts.len(),
{
    if ts.len() > 0 {
        assert forall|i: int, k: int|
            0 <= i < ts.drop_last().len() && 0 <= k < ts.drop_last()[i].len()
                implies !is_space_char(#[trigger] ts.drop_last()[i][k]) by {
            assert(ts.drop_last()[i] == ts[i]);
        }
        lemma_render_rest_no_newline(ts.drop_last());
        let a = render_rest(ts.drop_last());
        let t = ts.last();
        assert(render_rest(ts) == a + seq![' '] + t);
        assert forall|k: int| 0 <= k < render_rest(ts).len() implies render_rest(ts)[k]
            != '\n' by {
            if k < a.len() {
                assert(render_rest(ts)[k] == a[k]);
            } else if k == a.len() {
                assert(render_rest(ts)[k] == ' ');
            } else {
                assert(render_rest(ts)[k] == t[k - a.len() - 1]);
                assert(!is_space_char(ts[ts.len() - 1][k - a.len() - 1]));
            }
        }
    }
}

/// A line joined from whitespace-free tokens holds no newline.
pub proof fn lemma_render_tokens_no_newline(ts: Seq<Seq<char>>)
    requires
        forall|i: int, k: int|
            0 <= i < ts.len() && 0 <= k < ts[i].len() ==> !is_space_char(#[trigger] ts[i][k]),
    ensures
        forall|k: int| 0 <= k < render_tokens(ts).len() ==> render_tokens(ts)[k] != '\n',
{
    if ts.len() > 0 {
        assert forall|i: int, k: int|
            0 <= i < ts.skip(1).len() && 0 <= k < ts.skip(1)[i].len() implies !is_space_char(
            #[trigger] ts.skip(1)[i][k],
        ) by {
            assert(ts.skip(1)[i] == ts[i + 1]);
        }
        lemma_render_rest_no_newline(ts.skip(1));
        let a = ts[0];
        let b = render_rest(ts.skip(1));
        assert(render_tokens(ts) == a + b);
        assert forall|k: int| 0 <= k < render_tokens(ts).len() implies render_tokens(ts)[k]
            != '\n' by {
            if k < a.len() {
                assert(render_tokens(ts)[k] == a[k]);
                assert(!is_space_char(ts[0][k]));
            } else {
                assert(render_tokens(ts)[k] == b[k - a.len()]);
            }
        }
    }
}

/// Appends a single space and then the token to a line being built.
pub(crate) fn append_sep_token(line: &mut String, tok: &str)
    ensures
        final(line)@ == old(line)@ + seq![' '] + tok@,
{
    line.append(" ");
    line.append(tok);
    proof {
        reveal_strlit(" ");
        assert(" "@ =~= seq![' ']);
    }
}

/// Appends a newline character.
pub(crate) fn append_newline(out: &mut String)
    ensures
        final(out)@ == old(out)@ + seq!['\n'],
{
    out.append("\n");
    proof {
        reveal_strlit("\n");
        assert("\n"@ =~= seq!['\n']);
    }
}

/// Whether `c` is one of the recognized whitespace characters.
fn space_char(c: char) -> (r: bool)
    ensures
        r == is_space_char(c),
{
    c == ' ' || c == '\t' || c == '\n' || c == '\r' || c == '\u{b}' || c == '\u{c}'
}

/// Splits a line into its whitespace-separated tokens.
pub fn split_whitespace_tokens(line: &str) -> (r: Vec<String>)
    ensures
        str_views(r@) == tokens_of(line@),
{
    let n = line.unicode_len();
    let mut i: usize = 0;
    let mut toks: Vec<String> = Vec::new();
    proof {
        assert(str_views(toks@) =~= Seq::<Seq<char>>::empty());
        assert(str_views(toks@) + tokens_from(line@, 0) =~= tokens_of(line@));
    }
    while i < n
        invariant
            n == line@.len(),
            0 <= i <= n,
            str_views(toks@) + tokens_from(line@, i as int) == tokens_of(line@),
        decreases n - i,
    {
        let c = line.get_char(i);
        if space_char(c) {
            i = i + 1;
        } else {
            let mut j: usize = i + 1;
            proof {
                assert(token_end(line@, i as int) == token_end(line@, i + 1));
            }
            while j < n && !space_char(line.get_char(j))
                invariant
                    n == line@.len(),
                    i < j <= n,
                    token_end(line@, i as int) == token_end(line@, j as int),
                decreases n - j,
            {
                proof {
                    assert(token_end(line@, j as int) == token_end(line@, j + 1));
                }
                j = j + 1;
            }
            proof {
                assert(token_end(line@, j as int) == j as int);
                assert(token_end(line@, i as int) == j as int);
            }
            let tok = line.substring_char(i, j).to_owned();
            let ghost old_toks = toks@;
            toks.push(tok);
            proof {
                assert(str_views(toks@) =~= str_views(old_toks) + seq![tok@]);
                assert(tokens_from(line@, i as int) =~= seq![line@.subrange(
                    i as int,
                    j as int,
                )] + tokens_from(line@, j as int));
                assert(str_views(toks@) + tokens_from(line@, j as int) =~= tokens_of(line@));
            }
            i = j;
        }
    }
    proof {
        assert(tokens_from(line@, n as int) =~= Seq::<Seq<char>>::empty());
        assert(str_views(toks@) =~= tokens_of(line@));
    }
    toks
}

/// Splits a text into its lines, cutting at each newline character.
pub fn split_lines(text: &str) -> (r: Vec<String>)
    ensures
        str_views(r@) == spec_lines(text@),
{
    let n = text.unicode_len();
    let mut i: usize = 0;
    let mut out: Vec<String> = Vec::new();
    proof {
        assert(str_views(out@) =~= Seq::<Seq<char>>::empty());
        assert(str_views(out@) + lines_from(text@, 0) =~= spec_lines(text@));
    }
    loop
        invariant
            n == text@.len(),
            0 <= i <= n,
            str_views(out@) + lines_from(text@, i as int) == spec_lines(text@),
        decreases n - i + 1,
    {
        let mut j: usize = i;
        while j < n && text.get_char(j) != '\n'
            invariant
                n == text@.len(),
                i <= j <= n,
                line_end(text@, i as int) == line_end(text@, j as int),
            decreases n - j,
        {
            proof {
                assert(line_end(text@, j as int) == line_end(text@, j + 1));
            }
            j = j + 1;
        }
        proof {
            assert(line_end(text@, j as int) == j as int);
            assert(line_end(text@, i as int) == j as int);
        }
        let piece = text.substring_char(i, j).to_owned();
        let ghost old_out = out@;
        out.push(piece);
        proof {
            assert(str_views(out@) =~= str_views(old_out) + seq![piece@]);
        }
        if j < n {
            proof {
                assert(lines_from(text@, i as int) =~= seq![text@.subrange(
                    i as int,
                    j as int,
                )] + lines_from(text@, j + 1));
                assert(str_views(out@) + lines_from(text@, j + 1) =~= spec_lines(text@));
            }
            i = j + 1;
        } else {
            proof {
                assert(lines_from(text@, i as int) =~= seq![text@.subrange(i as int, n as int)]);
                assert(str_views(out@) =~= spec_lines(text@));
            }
            return out;
        }
    }
}

} // verus!
