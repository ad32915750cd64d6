//! Laws of joining, splitting and replacing texts.

use crate::text::{
    find_from, join, lemma_find_from, lines, lines_from, match_at, replace, replace_from, without_return,
};
use vstd::prelude::*;

verus! {

/// A single part is joined to itself, and between what two lists of parts are
/// joined to stands one separator.
pub proof fn law_separator_stands_between(a: Seq<Seq<char>>, b: Seq<Seq<char>>, s: Seq<char>, sep: Seq<char>)
    requires
        a.len() > 0,
        b.len() > 0,
    ensures
        join(seq![s], sep) == s,
        join(a + b, sep) == join(a, sep) + sep + join(b, sep),
    decreases b.len(),
{
    let all = a + b;
    assert(all.last() == b.last());
    if b.len() == 1 {
        assert(all.drop_last() =~= a);
    } else {
        let c = b.drop_last();
        law_separator_stands_between(a, c, s, sep);
        assert(all.drop_last() =~= a + c);
        assert(join(a, sep) + sep + join(c, sep) + sep + b.last() =~= join(a, sep) + sep + (join(c, sep) + sep
            + b.last()));
    }
}

proof fn lemma_lines_shift(s: Seq<char>, p: int, start: int, i: int)
    requires
        0 <= p <= s.len(),
        0 <= start <= i <= s.len() - p,
    ensures
        lines_from(s, start + p, i + p) == lines_from(s.skip(p), start, i),
    decreases s.len() - p - i,
{
    let t = s.skip(p);
    if i < t.len() {
        assert(t[i] == s[i + p]);
        assert(s.subrange(start + p, i + p) =~= t.subrange(start, i));
        if t[i] == '\n' {
            lemma_lines_shift(s, p, i + 1, i + 1);
        } else {
            lemma_lines_shift(s, p, start, i + 1);
        }
    } else {
        assert(s.subrange(start + p, s.len() as int) =~= t.subrange(start, t.len() as int));
    }
}

proof fn lemma_no_line_end(s: Seq<char>, i: int, e: int)
    requires
        0 <= i <= e <= s.len(),
        forall|k: int| i <= k < e ==> #[trigger] s[k] != '\n',
    ensures
        lines_from(s, 0, i) == lines_from(s, 0, e),
    decreases e - i,
{
    if i < e {
        assert(s[i] != '\n');
        lemma_no_line_end(s, i + 1, e);
    }
}

/// A text up to a line feed, with or without a carriage return before it, is a
/// line, and the lines of the rest follow; a text without a line feed is one
/// line as it is.
pub proof fn law_lines_are_told_apart(line: Seq<char>, rest: Seq<char>)
    requires
        forall|k: int| 0 <= k < line.len() ==> #[trigger] line[k] != '\n',
    ensures
        line.len() == 0 || line.last() != '\r' ==> lines(line + seq!['\n'] + rest) == seq![line] + lines(rest),
        lines(line + seq!['\r', '\n'] + rest) == seq![line] + lines(rest),
        line.len() > 0 ==> lines(line) == seq![line],
        lines(Seq::<char>::empty()).len() == 0,
{
    let n = line.len() as int;
    lemma_no_line_end(line, 0, n);
    assert(line.subrange(0, n) =~= line);
    let s = line + seq!['\n'] + rest;
    assert forall|k: int| 0 <= k < n implies #[trigger] s[k] != '\n' by {
        assert(s[k] == line[k]);
    }
    lemma_no_line_end(s, 0, n);
    assert(s[n] == '\n');
    assert(s.subrange(0, n) =~= line);
    lemma_lines_shift(s, n + 1, 0, 0);
    assert(s.skip(n + 1) =~= rest);
    let t = line + seq!['\r', '\n'] + rest;
    assert forall|k: int| 0 <= k < n + 1 implies #[trigger] t[k] != '\n' by {
        if k < n {
            assert(t[k] == line[k]);
        }
    }
    lemma_no_line_end(t, 0, n + 1);
    assert(t[n + 1] == '\n');
    let full = t.subrange(0, n + 1);
    assert(full.last() == '\r');
    assert(without_return(full) =~= line);
    lemma_lines_shift(t, n + 2, 0, 0);
    assert(t.skip(n + 2) =~= rest);
}

pub(crate) proof fn lemma_replace_shift(s: Seq<char>, p: Seq<char>, with: Seq<char>, k: int, from: int)
    requires
        p.len() > 0,
        0 <= k <= s.len(),
        0 <= from,
    ensures
        replace_from(s, p, with, k + from) == replace_from(s.skip(k), p, with, from),
    decreases s.len() - k - from,
{
    let t = s.skip(k);
    if from < t.len() {
        assert(t[from] == s[k + from]);
        if k + from + p.len() <= s.len() {
            assert(s.subrange(k + from, k + from + p.len()) =~= t.subrange(from, from + p.len()));
        }
        if match_at(t, p, from) {
            lemma_replace_shift(s, p, with, k, from + p.len() as int);
        } else {
            lemma_replace_shift(s, p, with, k, from + 1);
        }
    } else if from == t.len() {
        assert(s.skip(k + from) =~= t.skip(from));
    }
}

proof fn lemma_replace_keeps(s: Seq<char>, p: Seq<char>, with: Seq<char>, i: int, e: int)
    requires
        p.len() > 0,
        0 <= i <= e <= s.len(),
        forall|k: int| i <= k < e ==> !match_at(s, p, k),
    ensures
        replace_from(s, p, with, i) == s.subrange(i, e) + replace_from(s, p, with, e),
    decreases e - i,
{
    if i < e {
        lemma_replace_keeps(s, p, with, i + 1, e);
        assert(!match_at(s, p, i));
        assert(seq![s[i]] + (s.subrange(i + 1, e) + replace_from(s, p, with, e)) =~= s.subrange(i, e)
            + replace_from(s, p, with, e));
    } else {
        assert(s.subrange(i, e) + replace_from(s, p, with, e) =~= replace_from(s, p, with, e));
    }
}

/// A text without the pattern is kept; else what stands before the first match
/// is kept, the match is replaced, and the text behind it is treated the same
/// way.
pub proof fn law_first_match_is_replaced(s: Seq<char>, p: Seq<char>, with: Seq<char>, i: int)
    requires
        p.len() > 0,
    ensures
        (forall|k: int| !match_at(s, p, k)) ==> replace(s, p, with) == s,
        match_at(s, p, i) && (forall|k: int| 0 <= k < i ==> !match_at(s, p, k)) ==> replace(s, p, with) == s.take(i)
            + with + replace(s.skip(i + p.len()), p, with),
{
    if forall|k: int| !match_at(s, p, k) {
        let n = s.len() as int;
        lemma_replace_keeps(s, p, with, 0, n);
        assert(s.subrange(0, n) + s.skip(n) =~= s);
    }
    if match_at(s, p, i) && (forall|k: int| 0 <= k < i ==> !match_at(s, p, k)) {
        lemma_replace_keeps(s, p, with, 0, i);
        lemma_replace_shift(s, p, with, i + p.len(), 0);
        assert(s.subrange(0, i) =~= s.take(i));
        assert(s.take(i) + (with + replace(s.skip(i + p.len()), p, with)) =~= s.take(i) + with + replace(
            s.skip(i + p.len()),
            p,
            with,
        ));
    }
}

/// What is found is the first match from a position on, and nothing is found
/// only where the pattern does not stand.
pub proof fn law_first_match_is_found(s: Seq<char>, p: Seq<char>, from: int, i: int)
    requires
        0 <= from,
    ensures
        find_from(s, p, from) == Some(i) <==> from <= i && match_at(s, p, i) && (forall|k: int|
            from <= k < i ==> !match_at(s, p, k)),
{
    lemma_find_from(s, p, from);
    if from <= i && match_at(s, p, i) && (forall|k: int| from <= k < i ==> !match_at(s, p, k)) {
        let j = find_from(s, p, from)->0;
        assert(find_from(s, p, from) is Some);
        assert(j <= i) by {
            if i < j {
                assert(!match_at(s, p, i));
            }
        }
    }
}

} // verus!
