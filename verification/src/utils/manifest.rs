//! Manifests as texts: the lines that declare child modules.
use crate::utils::text::{
    chars_of, extend_range, extend_str, is_whitespace, matches_at, string_of, trim, trim_bounds,
    trim_end, trim_start,
};
use vstd::prelude::*;

verus! {

/// The line that declares the child module `child` in a manifest.
pub open spec fn declaration(child: Seq<char>) -> Seq<char> {
    "pub mod "@ + child + ";"@
}

/// Whether `s[i..j]` is a line of `s`: it starts at the start of `s` or
/// behind a line feed, ends before the next line feed or at the end of `s`,
/// and does not start at the end of `s`.
pub open spec fn is_line(s: Seq<char>, i: int, j: int) -> bool {
    &&& 0 <= i <= j <= s.len()
    &&& i < s.len()
    &&& (i == 0 || s[i - 1] == '\n')
    &&& (j == s.len() || s[j] == '\n')
    &&& forall|k: int| i <= k < j ==> s[k] != '\n'
}

/// Whether some line of `s`, without the white space around it, is `line`.
/// A carriage return before the line feed is white space.
pub open spec fn has_line(s: Seq<char>, line: Seq<char>) -> bool {
    exists|i: int, j: int| is_line(s, i, j) && trim(s.subrange(i, j)) == line
}

/// Whether the manifest `content` declares the child module `child`.
pub open spec fn declares(content: Seq<char>, child: Seq<char>) -> bool {
    has_line(content, declaration(child))
}

/// The text `content` with its last line ended: with a line feed behind
/// it where it is not empty and does not end with one.
pub open spec fn ended(content: Seq<char>) -> Seq<char> {
    if content.len() > 0 && content.last() != '\n' {
        content.push('\n')
    } else {
        content
    }
}

/// The manifest `content` once `child` is declared: as it is where it
/// declares `child`; and else with its last line ended, and behind it the
/// declaration as a line of its own, ended by a line feed.
pub open spec fn with_declaration(content: Seq<char>, child: Seq<char>) -> Seq<char> {
    if declares(content, child) {
        content
    } else {
        ended(content) + declaration(child) + seq!['\n']
    }
}

/// Whether `s` has no line feed in it.
pub open spec fn one_line(s: Seq<char>) -> bool {
    forall|k: int| 0 <= k < s.len() ==> s[k] != '\n'
}

/// Whether at most one line of the manifest declares the child.
pub open spec fn declared_once(content: Seq<char>, child: Seq<char>) -> bool {
    forall|i: int, j: int, k: int, l: int|
        is_line(content, i, j) && trim(content.subrange(i, j)) == declaration(child) && is_line(
            content,
            k,
            l,
        ) && trim(content.subrange(k, l)) == declaration(child) ==> i == k
}

/// Nothing is trimmed from a text that neither starts nor ends with white
/// space.
pub proof fn lemma_trim_nothing(d: Seq<char>)
    requires
        d.len() > 0,
        !is_whitespace(d[0]),
        !is_whitespace(d.last()),
    ensures
        trim(d) == d,
{
}

/// What is trimmed has no line feed in it unless the text had one.
pub proof fn lemma_trim_one_line(s: Seq<char>)
    requires
        one_line(s),
    ensures
        one_line(trim(s)),
{
    lemma_trim_start_one_line(s);
    lemma_trim_end_one_line(trim_start(s));
}

proof fn lemma_trim_start_one_line(s: Seq<char>)
    requires
        one_line(s),
    ensures
        one_line(trim_start(s)),
    decreases s.len(),
{
    if s.len() > 0 && is_whitespace(s[0]) {
        assert forall|k: int| 0 <= k < s.drop_first().len() implies s.drop_first()[k] != '\n' by {
            assert(s.drop_first()[k] == s[k + 1]);
        }
        lemma_trim_start_one_line(s.drop_first());
    }
}

proof fn lemma_trim_end_one_line(s: Seq<char>)
    requires
        one_line(s),
    ensures
        one_line(trim_end(s)),
    decreases s.len(),
{
    if s.len() > 0 && is_whitespace(s.last()) {
        assert forall|k: int| 0 <= k < s.drop_last().len() implies s.drop_last()[k] != '\n' by {
            assert(s.drop_last()[k] == s[k]);
        }
        lemma_trim_end_one_line(s.drop_last());
    }
}

/// What a declaration is made of: it starts with `p` and ends with `;`,
/// neither of them white space, and has a line feed only where the name
/// of the child has one.
pub proof fn lemma_declaration(child: Seq<char>)
    ensures
        declaration(child).len() == child.len() + 9,
        declaration(child)[0] == 'p',
        declaration(child).last() == ';',
        one_line(child) <==> one_line(declaration(child)),
{
    reveal_strlit("pub mod ");
    reveal_strlit(";");
    let d = declaration(child);
    if one_line(child) {
        assert forall|k: int| 0 <= k < d.len() implies d[k] != '\n' by {
            if 8 <= k < 8 + child.len() {
                assert(d[k] == child[k - 8]);
            }
        }
    }
    if one_line(d) {
        assert forall|k: int| 0 <= k < child.len() implies child[k] != '\n' by {
            assert(d[k + 8] == child[k]);
        }
    }
}

/// A declaration is the declaration of one child only.
pub proof fn lemma_declaration_tells_the_child(child: Seq<char>, other: Seq<char>)
    requires
        declaration(child) == declaration(other),
    ensures
        child == other,
{
    reveal_strlit("pub mod ");
    reveal_strlit(";");
    let d = declaration(child);
    let o = declaration(other);
    lemma_declaration(child);
    lemma_declaration(other);
    assert(child.len() == other.len());
    assert forall|k: int| 0 <= k < child.len() implies child[k] == other[k] by {
        assert(d[k + 8] == child[k]);
        assert(o[k + 8] == other[k]);
    }
    assert(child =~= other);
}

/// A manifest declares only children whose name is one line.
pub proof fn lemma_declared_is_one_line(content: Seq<char>, child: Seq<char>)
    requires
        declares(content, child),
    ensures
        one_line(child),
{
    let (i, j) = choose|i: int, j: int|
        is_line(content, i, j) && trim(content.subrange(i, j)) == declaration(child);
    lemma_trim_one_line(content.subrange(i, j));
    lemma_declaration(child);
}

/// A line of a text is a line of that text with more text behind it, if
/// the text is empty or ends with a line feed, or if what comes behind it
/// starts with one.
pub proof fn lemma_append_keeps_a_line(content: Seq<char>, more: Seq<char>, i: int, j: int)
    requires
        is_line(content, i, j),
        content.len() == 0 || content.last() == '\n' || (more.len() > 0 && more[0] == '\n'),
    ensures
        is_line(content + more, i, j),
        (content + more).subrange(i, j) == content.subrange(i, j),
{
    let grown = content + more;
    if j == content.len() {
        if content.last() == '\n' {
            assert(content[content.len() - 1] == '\n');
            assert(false);
        }
        assert(more.len() > 0 ==> grown[j] == more[0]);
    }
    assert(grown.subrange(i, j) =~= content.subrange(i, j));
}

/// A line that a text holds, the text still holds with more text behind
/// it, if the text is empty or ends with a line feed, or if what comes
/// behind it starts with one.
pub proof fn lemma_append_keeps_lines(content: Seq<char>, more: Seq<char>, line: Seq<char>)
    requires
        has_line(content, line),
        content.len() == 0 || content.last() == '\n' || (more.len() > 0 && more[0] == '\n'),
    ensures
        has_line(content + more, line),
{
    let (i, j) = choose|i: int, j: int|
        is_line(content, i, j) && trim(content.subrange(i, j)) == line;
    lemma_append_keeps_a_line(content, more, i, j);
}

/// To end the last line of a text neither makes a line nor takes one
/// away: the lines of the ended text are the lines of the text.
pub proof fn lemma_ended_lines(content: Seq<char>, i: int, j: int)
    ensures
        ended(content).len() == 0 || ended(content).last() == '\n',
        is_line(ended(content), i, j) <==> is_line(content, i, j),
        is_line(content, i, j) ==> ended(content).subrange(i, j) == content.subrange(i, j),
{
    let e = ended(content);
    let n = content.len() as int;
    if e != content {
        if is_line(content, i, j) {
            lemma_append_keeps_a_line(content, seq!['\n'], i, j);
        }
        if is_line(e, i, j) {
            assert(e[n] == '\n');
            if j > n {
                assert(false);
            }
            if i == n {
                assert(e[n - 1] == content[n - 1]);
                assert(false);
            }
            if i > 0 {
                assert(e[i - 1] == content[i - 1]);
            }
            assert forall|k: int| i <= k < j implies content[k] != '\n' by {
                assert(e[k] == content[k]);
            }
            if j < n {
                assert(e[j] == content[j]);
            }
        }
    }
}

/// The lines of a manifest in which a child was declared just now: the
/// lines that the manifest had, unchanged, and behind them the one line
/// that is the declaration.
pub proof fn lemma_lines_after_declaration(content: Seq<char>, child: Seq<char>, i: int, j: int)
    requires
        one_line(child),
        is_line(ended(content) + declaration(child) + seq!['\n'], i, j),
    ensures
        (is_line(content, i, j) && (ended(content) + declaration(child) + seq!['\n']).subrange(
            i,
            j,
        ) == content.subrange(i, j)) || (i == ended(content).len() && j == ended(content).len()
            + declaration(child).len()),
{
    let base = ended(content);
    let d = declaration(child);
    let grown = base + d + seq!['\n'];
    let n = base.len() as int;
    let e = n + d.len();
    lemma_declaration(child);
    lemma_ended_lines(content, i, j);
    assert forall|k: int| n <= k < e implies grown[k] != '\n' by {
        assert(grown[k] == d[k - n]);
    }
    assert(grown[e] == '\n');
    if j < n {
        assert(grown[j] == base[j]);
        if i > 0 {
            assert(grown[i - 1] == base[i - 1]);
        }
        assert forall|k: int| i <= k < j implies base[k] != '\n' by {
            assert(grown[k] == base[k]);
        }
        assert(is_line(base, i, j));
        assert(grown.subrange(i, j) =~= base.subrange(i, j));
    } else {
        assert(j == e);
        if i < n {
            assert(grown[n - 1] == base[n - 1]);
            assert(false);
        }
        if i > n {
            assert(false);
        }
    }
}

/// Once a child whose name is one line is declared in a manifest, the
/// manifest declares it, whatever the manifest held: the declaration is a
/// line of its own also where the last line of the manifest was not ended.
pub proof fn lemma_declare_declares(content: Seq<char>, child: Seq<char>)
    requires
        one_line(child),
    ensures
        declares(with_declaration(content, child), child),
{
    if !declares(content, child) {
        let base = ended(content);
        let d = declaration(child);
        let grown = base + d + seq!['\n'];
        let n = base.len() as int;
        let e = n + d.len();
        lemma_declaration(child);
        lemma_ended_lines(content, 0, 0);
        assert forall|k: int| n <= k < e implies grown[k] != '\n' by {
            assert(grown[k] == d[k - n]);
        }
        if n > 0 {
            assert(grown[n - 1] == base[n - 1]);
        }
        assert(is_line(grown, n, e));
        assert(grown.subrange(n, e) =~= d);
        lemma_trim_nothing(d);
    }
}

/// To declare a child twice is to declare it once exactly where the
/// manifest declared the child before or the name of the child is one
/// line. A name of two lines is never declared, so that each call adds
/// its lines again.
pub proof fn lemma_declare_twice_exactly(content: Seq<char>, child: Seq<char>)
    ensures
        with_declaration(with_declaration(content, child), child) == with_declaration(
            content,
            child,
        ) <==> declares(content, child) || one_line(child),
{
    let once = with_declaration(content, child);
    if declares(content, child) || one_line(child) {
        if !declares(content, child) {
            lemma_declare_declares(content, child);
        }
    } else {
        if declares(once, child) {
            lemma_declared_is_one_line(once, child);
        }
        assert(with_declaration(once, child).len() >= once.len() + declaration(child).len() + 1);
    }
}

/// What a manifest declares, it still declares once another child is
/// declared in it: no declaration is lost.
pub proof fn lemma_declare_keeps(content: Seq<char>, child: Seq<char>, other: Seq<char>)
    requires
        declares(content, child),
    ensures
        declares(with_declaration(content, other), child),
{
    if !declares(content, other) {
        let more = if ended(content) == content {
            declaration(other) + seq!['\n']
        } else {
            seq!['\n'] + declaration(other) + seq!['\n']
        };
        assert(with_declaration(content, other) =~= content + more);
        lemma_append_keeps_lines(content, more, declaration(child));
    }
}

/// No declaration comes to stand twice: in a manifest in which at most
/// one line declares a child, at most one line declares that child once
/// another child, whose name is one line, is declared too.
pub proof fn lemma_declared_once(content: Seq<char>, child: Seq<char>, other: Seq<char>)
    requires
        one_line(other),
        declared_once(content, child),
    ensures
        declared_once(with_declaration(content, other), child),
{
    if !declares(content, other) {
        let d = declaration(other);
        let grown = ended(content) + d + seq!['\n'];
        let n = ended(content).len() as int;
        lemma_declaration(other);
        lemma_declaration(child);
        assert forall|i: int, j: int, k: int, l: int|
            is_line(grown, i, j) && trim(grown.subrange(i, j)) == declaration(child) && is_line(
                grown,
                k,
                l,
            ) && trim(grown.subrange(k, l)) == declaration(child) implies i == k by {
            lemma_lines_after_declaration(content, other, i, j);
            lemma_lines_after_declaration(content, other, k, l);
            if !(i == n && j == n + d.len()) && k == n && l == n + d.len() {
                assert(grown.subrange(k, l) =~= d);
                lemma_trim_nothing(d);
                lemma_declaration_tells_the_child(child, other);
            }
            if !(k == n && l == n + d.len()) && i == n && j == n + d.len() {
                assert(grown.subrange(i, j) =~= d);
                lemma_trim_nothing(d);
                lemma_declaration_tells_the_child(child, other);
            }
        }
    }
}

/// The line that declares `child`.
pub fn declaration_of(child: &str) -> (r: Vec<char>)
    ensures
        r@ == declaration(child@),
{
    let mut r: Vec<char> = Vec::new();
    extend_str(&mut r, "pub mod ");
    extend_str(&mut r, child);
    extend_str(&mut r, ";");
    assert(r@ =~= declaration(child@));
    r
}

/// Whether some line of `content`, trimmed, is `line`.
pub fn holds_line(content: &Vec<char>, line: &Vec<char>) -> (r: bool)
    ensures
        r == has_line(content@, line@),
{
    let n: usize = content.len();
    let mut start: usize = 0;
    while start < n
        invariant
            n == content.len(),
            start <= n,
            start < n ==> start == 0 || content[start - 1] == '\n',
            forall|i: int, j: int|
                0 <= i < start && is_line(content@, i, j) ==> trim(content@.subrange(i, j))
                    != line@,
        decreases n - start,
    {
        let mut end: usize = start;
        while end < n && content[end] != '\n'
            invariant
                n == content.len(),
                start <= end <= n,
                forall|k: int| start <= k < end ==> content[k] != '\n',
            decreases n - end,
        {
            end += 1;
        }
        assert(is_line(content@, start as int, end as int));
        let (a, b) = trim_bounds(content, start, end);
        if b - a == line.len() && matches_at(content, line, a) {
            return true;
        }
        assert(trim(content@.subrange(start as int, end as int)) != line@);
        let next: usize = if end == n {
            n
        } else {
            end + 1
        };
        assert forall|i: int, j: int| 0 <= i < next && is_line(content@, i, j) implies trim(
            content@.subrange(i, j),
        ) != line@ by {
            if i >= start {
                if i > start {
                    assert(content[i - 1] == '\n');
                }
                assert(i == start);
                if j < end {
                    assert(content[j] == '\n');
                }
                if j > end {
                    assert(content[end as int] == '\n');
                }
                assert(j == end);
            }
        }
        start = next;
    }
    false
}

/// Whether the manifest `content` declares `child`.
pub fn is_declared(content: &str, child: &str) -> (r: bool)
    ensures
        r == declares(content@, child@),
{
    holds_line(&chars_of(content), &declaration_of(child))
}

/// Declares `child` in the manifest `content`, once: a manifest that
/// declares it already comes back as it is. The declaration becomes a
/// line of its own: a last line that was not ended is ended first.
pub fn declare(content: &str, child: &str) -> (r: String)
    ensures
        r@ == with_declaration(content@, child@),
{
    let chars = chars_of(content);
    let line = declaration_of(child);
    if holds_line(&chars, &line) {
        return string_of(&chars);
    }
    let mut out: Vec<char> = Vec::new();
    extend_range(&mut out, &chars, 0, chars.len());
    assert(out@ =~= content@);
    if chars.len() > 0 && chars[chars.len() - 1] != '\n' {
        out.push('\n');
    }
    assert(out@ =~= ended(content@));
    extend_range(&mut out, &line, 0, line.len());
    out.push('\n');
    assert(out@ =~= ended(content@) + declaration(child@) + seq!['\n']);
    string_of(&out)
}

} // verus!
