//! Texts as sequences of characters: search, insertion and trimming.
use vstd::prelude::*;
use vstd::std_specs::iter::IteratorSpec;

verus! {

/// The characters of `s`, in order.
pub fn chars_of(s: &str) -> (v: Vec<char>)
    ensures
        v@ == s@,
{
    broadcast use vstd::string::group_string_axioms;

    let mut v: Vec<char> = Vec::new();
    let mut it = s.chars();
    loop
        invariant
            v@ + it.remaining() == s@,
        decreases s@.len() - v@.len(),
    {
        match it.next() {
            Some(c) => {
                v.push(c);
                assert(v@ + it.remaining() =~= s@);
            },
            None => {
                assert(v@ =~= s@);
                return v;
            },
        }
    }
}

/// `String::push` of the standard library: the string grows by the one
/// character `c`, at its end.
#[verifier::external_body]
fn push_char(s: &mut String, c: char)
    ensures
        final(s)@ == old(s)@.push(c),
{
    s.push(c)
}

/// The string that holds the characters of `v`, in order.
pub fn string_of(v: &Vec<char>) -> (s: String)
    ensures
        s@ == v@,
{
    let mut s = String::new();
    let mut i: usize = 0;
    while i < v.len()
        invariant
            i <= v.len(),
            s@ == v@.take(i as int),
        decreases v.len() - i,
    {
        push_char(&mut s, v[i]);
        i += 1;
        assert(s@ =~= v@.take(i as int));
    }
    assert(v@.take(v.len() as int) =~= v@);
    s
}

/// White space as `char::is_whitespace` of the standard library has it: the
/// code points with the Unicode property `White_Space`.
pub open spec fn is_whitespace(c: char) -> bool {
    ||| '\u{9}' <= c <= '\u{d}'
    ||| c == ' '
    ||| c == '\u{85}'
    ||| c == '\u{a0}'
    ||| c == '\u{1680}'
    ||| '\u{2000}' <= c <= '\u{200a}'
    ||| c == '\u{2028}'
    ||| c == '\u{2029}'
    ||| c == '\u{202f}'
    ||| c == '\u{205f}'
    ||| c == '\u{3000}'
}

/// Whether `c` is white space.
pub fn whitespace(c: char) -> (r: bool)
    ensures
        r == is_whitespace(c),
{
    ('\u{9}' <= c && c <= '\u{d}') || c == ' ' || c == '\u{85}' || c == '\u{a0}' || c
        == '\u{1680}' || ('\u{2000}' <= c && c <= '\u{200a}') || c == '\u{2028}' || c
        == '\u{2029}' || c == '\u{202f}' || c == '\u{205f}' || c == '\u{3000}'
}

/// Appends the characters `src[from..to]` to `dst`.
pub fn extend_range(dst: &mut Vec<char>, src: &Vec<char>, from: usize, to: usize)
    requires
        from <= to <= src.len(),
    ensures
        final(dst)@ == old(dst)@ + src@.subrange(from as int, to as int),
{
    let mut i: usize = from;
    while i < to
        invariant
            from <= i <= to <= src.len(),
            dst@ == old(dst)@ + src@.subrange(from as int, i as int),
        decreases to - i,
    {
        dst.push(src[i]);
        i += 1;
        assert(dst@ =~= old(dst)@ + src@.subrange(from as int, i as int));
    }
}

/// Appends the characters of `s` to `dst`.
pub fn extend_str(dst: &mut Vec<char>, s: &str)
    ensures
        final(dst)@ == old(dst)@ + s@,
{
    let v = chars_of(s);
    extend_range(dst, &v, 0, v.len());
    assert(v@.subrange(0, v.len() as int) =~= v@);
}

/// Whether the two hold the same characters.
pub fn same_chars(a: &Vec<char>, b: &Vec<char>) -> (r: bool)
    ensures
        r == (a@ == b@),
{
    if a.len() != b.len() {
        return false;
    }
    let mut i: usize = 0;
    while i < a.len()
        invariant
            a.len() == b.len(),
            i <= a.len(),
            a@.take(i as int) == b@.take(i as int),
        decreases a.len() - i,
    {
        if a[i] != b[i] {
            return false;
        }
        i += 1;
        assert(a@.take(i as int) =~= a@.take(i - 1).push(a@[i - 1]));
        assert(b@.take(i as int) =~= b@.take(i - 1).push(b@[i - 1]));
    }
    assert(a@.take(a.len() as int) =~= a@);
    assert(b@.take(b.len() as int) =~= b@);
    true
}

/// Whether `pat` stands in `hay` at the index `i`.
pub open spec fn occurs_at(hay: Seq<char>, pat: Seq<char>, i: int) -> bool {
    &&& 0 <= i
    &&& i + pat.len() <= hay.len()
    &&& hay.subrange(i, i + pat.len()) == pat
}

/// The least index at or after `from` at which `pat` stands in `hay`.
pub open spec fn find_from(hay: Seq<char>, pat: Seq<char>, from: int) -> Option<int>
    decreases hay.len() - from + 1,
{
    if from < 0 || from + pat.len() > hay.len() {
        None
    } else if occurs_at(hay, pat, from) {
        Some(from)
    } else {
        find_from(hay, pat, from + 1)
    }
}

/// The least index at which `pat` stands in `hay`.
pub open spec fn find(hay: Seq<char>, pat: Seq<char>) -> Option<int> {
    find_from(hay, pat, 0)
}

/// The greatest index, not above `upto`, at which `pat` stands in `hay`.
pub open spec fn rfind_upto(hay: Seq<char>, pat: Seq<char>, upto: int) -> Option<int>
    decreases upto + 1,
{
    if upto < 0 {
        None
    } else if occurs_at(hay, pat, upto) {
        Some(upto)
    } else {
        rfind_upto(hay, pat, upto - 1)
    }
}

/// The greatest index at which `pat` stands in `hay`.
pub open spec fn rfind(hay: Seq<char>, pat: Seq<char>) -> Option<int> {
    rfind_upto(hay, pat, hay.len() - pat.len())
}

/// Whether `pat` stands somewhere in `hay`.
pub open spec fn contains(hay: Seq<char>, pat: Seq<char>) -> bool {
    find(hay, pat) is Some
}

/// `find_from` gives the first occurrence at or after `from`, and `None`
/// when there is none.
pub proof fn lemma_find_from(hay: Seq<char>, pat: Seq<char>, from: int)
    requires
        0 <= from,
    ensures
        match find_from(hay, pat, from) {
            Some(i) => from <= i && occurs_at(hay, pat, i) && forall|j: int|
                from <= j < i ==> !occurs_at(hay, pat, j),
            None => forall|j: int| from <= j ==> !occurs_at(hay, pat, j),
        },
    decreases hay.len() - from + 1,
{
    if from + pat.len() > hay.len() {
    } else if occurs_at(hay, pat, from) {
    } else {
        lemma_find_from(hay, pat, from + 1);
    }
}

/// `rfind_upto` gives the last occurrence at or before `upto`, and `None`
/// when there is none.
pub proof fn lemma_rfind_upto(hay: Seq<char>, pat: Seq<char>, upto: int)
    ensures
        match rfind_upto(hay, pat, upto) {
            Some(i) => 0 <= i <= upto && occurs_at(hay, pat, i) && forall|j: int|
                i < j <= upto ==> !occurs_at(hay, pat, j),
            None => forall|j: int| j <= upto ==> !occurs_at(hay, pat, j),
        },
    decreases upto + 1,
{
    if upto < 0 {
    } else if occurs_at(hay, pat, upto) {
    } else {
        lemma_rfind_upto(hay, pat, upto - 1);
    }
}

/// `rfind` gives the last occurrence in all of `hay`.
pub proof fn lemma_rfind(hay: Seq<char>, pat: Seq<char>)
    ensures
        match rfind(hay, pat) {
            Some(i) => occurs_at(hay, pat, i) && forall|j: int| i < j ==> !occurs_at(hay, pat, j),
            None => forall|j: int| !occurs_at(hay, pat, j),
        },
{
    lemma_rfind_upto(hay, pat, hay.len() - pat.len());
}

/// What stands at some index stands somewhere.
pub proof fn lemma_occurrence_is_found(hay: Seq<char>, pat: Seq<char>, i: int)
    requires
        occurs_at(hay, pat, i),
    ensures
        contains(hay, pat),
{
    lemma_find_from(hay, pat, 0);
}

/// What stands somewhere in a text stands somewhere in that text with
/// more text before it or behind it.
pub proof fn lemma_contains_in_part(
    before: Seq<char>,
    hay: Seq<char>,
    after: Seq<char>,
    pat: Seq<char>,
)
    requires
        contains(hay, pat),
    ensures
        contains(before + hay + after, pat),
{
    lemma_find_from(hay, pat, 0);
    let i = find(hay, pat)->0;
    let whole = before + hay + after;
    assert(whole.subrange(before.len() + i, before.len() + i + pat.len()) =~= hay.subrange(
        i,
        i + pat.len(),
    ));
    lemma_occurrence_is_found(whole, pat, before.len() + i);
}

/// A text that was put in before the index `at` stands at `at`, and what
/// stood before and behind that index stands around it, unchanged.
pub proof fn lemma_splice(s: Seq<char>, at: int, ins: Seq<char>)
    requires
        0 <= at <= s.len(),
    ensures
        splice(s, at, ins).len() == s.len() + ins.len(),
        splice(s, at, ins).subrange(0, at) == s.subrange(0, at),
        splice(s, at, ins).subrange(at, at + ins.len()) == ins,
        splice(s, at, ins).subrange(at + ins.len(), (s.len() + ins.len()) as int) == s.subrange(
            at,
            s.len() as int,
        ),
        forall|k: int| 0 <= k < at ==> splice(s, at, ins)[k] == s[k],
        forall|k: int| at <= k < s.len() ==> splice(s, at, ins)[k + ins.len()] == s[k],
{
    let r = splice(s, at, ins);
    assert(r.subrange(0, at) =~= s.subrange(0, at));
    assert(r.subrange(at, at + ins.len()) =~= ins);
    assert(r.subrange(at + ins.len(), (s.len() + ins.len()) as int) =~= s.subrange(
        at,
        s.len() as int,
    ));
}

/// Whether `pat` stands in `hay` at `i`.
pub fn matches_at(hay: &Vec<char>, pat: &Vec<char>, i: usize) -> (r: bool)
    ensures
        r == occurs_at(hay@, pat@, i as int),
{
    if pat.len() > hay.len() || i > hay.len() - pat.len() {
        return false;
    }
    let mut k: usize = 0;
    while k < pat.len()
        invariant
            k <= pat.len(),
            i + pat.len() <= hay.len(),
            hay@.subrange(i as int, i + k) == pat@.take(k as int),
        decreases pat.len() - k,
    {
        if hay[i + k] != pat[k] {
            assert(hay@.subrange(i as int, i + pat.len())[k as int] != pat@[k as int]);
            return false;
        }
        k += 1;
        assert(hay@.subrange(i as int, i + k) =~= hay@.subrange(i as int, i + k - 1).push(
            hay@[i + k - 1],
        ));
        assert(pat@.take(k as int) =~= pat@.take(k - 1).push(pat@[k - 1]));
    }
    assert(pat@.take(pat.len() as int) =~= pat@);
    true
}

/// The first index at or after `from` at which `pat` stands in `hay`.
pub fn find_in(hay: &Vec<char>, pat: &Vec<char>, from: usize) -> (r: Option<usize>)
    ensures
        match r {
            Some(i) => from <= i && i + pat.len() <= hay.len() && find_from(
                hay@,
                pat@,
                from as int,
            ) == Some(i as int),
            None => find_from(hay@, pat@, from as int) is None,
        },
{
    if pat.len() > hay.len() || from > hay.len() - pat.len() {
        return None;
    }
    let last: usize = hay.len() - pat.len();
    let mut i: usize = from;
    loop
        invariant
            from <= i <= last,
            last == hay.len() - pat.len(),
            find_from(hay@, pat@, from as int) == find_from(hay@, pat@, i as int),
        decreases last - i,
    {
        if matches_at(hay, pat, i) {
            return Some(i);
        }
        if i == last {
            assert(find_from(hay@, pat@, i + 1) is None);
            return None;
        }
        i += 1;
    }
}

/// The last index at which `pat` stands in `hay`.
pub fn rfind_in(hay: &Vec<char>, pat: &Vec<char>) -> (r: Option<usize>)
    ensures
        match r {
            Some(i) => i + pat.len() <= hay.len() && rfind(hay@, pat@) == Some(i as int),
            None => rfind(hay@, pat@) is None,
        },
{
    if pat.len() > hay.len() {
        return None;
    }
    let mut i: usize = hay.len() - pat.len();
    loop
        invariant
            i <= hay.len() - pat.len(),
            rfind(hay@, pat@) == rfind_upto(hay@, pat@, i as int),
        decreases i,
    {
        if matches_at(hay, pat, i) {
            return Some(i);
        }
        if i == 0 {
            assert(rfind_upto(hay@, pat@, -1) is None);
            return None;
        }
        i -= 1;
    }
}

/// `s` with `ins` put in before the index `at`.
pub open spec fn splice(s: Seq<char>, at: int, ins: Seq<char>) -> Seq<char> {
    s.subrange(0, at) + ins + s.subrange(at, s.len() as int)
}

/// `s` with `ins` put in before the index `at`.
pub fn splice_in(s: &Vec<char>, at: usize, ins: &Vec<char>) -> (r: Vec<char>)
    requires
        at <= s.len(),
    ensures
        r@ == splice(s@, at as int, ins@),
{
    let mut r: Vec<char> = Vec::new();
    extend_range(&mut r, s, 0, at);
    extend_range(&mut r, ins, 0, ins.len());
    extend_range(&mut r, s, at, s.len());
    assert(ins@.subrange(0, ins.len() as int) =~= ins@);
    assert(r@ =~= splice(s@, at as int, ins@));
    r
}

/// `s` without the white space at its start.
pub open spec fn trim_start(s: Seq<char>) -> Seq<char>
    decreases s.len(),
{
    if s.len() > 0 && is_whitespace(s[0]) {
        trim_start(s.drop_first())
    } else {
        s
    }
}

/// `s` without the white space at its end.
pub open spec fn trim_end(s: Seq<char>) -> Seq<char>
    decreases s.len(),
{
    if s.len() > 0 && is_whitespace(s.last()) {
        trim_end(s.drop_last())
    } else {
        s
    }
}

/// `s` without the white space at its start and at its end, as `str::trim`
/// of the standard library gives it.
pub open spec fn trim(s: Seq<char>) -> Seq<char> {
    trim_end(trim_start(s))
}

/// The bounds `(a, b)` of what is left of `v[lo..hi]` once it is trimmed:
/// `a` is where the first character stands that is no white space, and
/// `b` is behind the last such one; where all is white space both are
/// `hi`.
pub fn trim_bounds(v: &Vec<char>, lo: usize, hi: usize) -> (r: (usize, usize))
    requires
        lo <= hi <= v.len(),
    ensures
        lo <= r.0 <= r.1 <= hi,
        trim(v@.subrange(lo as int, hi as int)) == v@.subrange(r.0 as int, r.1 as int),
        forall|k: int| lo <= k < r.0 || r.1 <= k < hi ==> is_whitespace(v[k]),
        r.0 < r.1 ==> !is_whitespace(v[r.0 as int]) && !is_whitespace(v[r.1 - 1]),
        r.0 == r.1 ==> r.0 == hi,
{
    let mut a: usize = lo;
    while a < hi && whitespace(v[a])
        invariant
            lo <= a <= hi <= v.len(),
            trim_start(v@.subrange(lo as int, hi as int)) == trim_start(
                v@.subrange(a as int, hi as int),
            ),
            forall|k: int| lo <= k < a ==> is_whitespace(v[k]),
        decreases hi - a,
    {
        assert(v@.subrange(a as int, hi as int).drop_first() =~= v@.subrange(a + 1, hi as int));
        a += 1;
    }
    let mut b: usize = hi;
    while a < b && whitespace(v[b - 1])
        invariant
            a <= b <= hi <= v.len(),
            trim_end(v@.subrange(a as int, hi as int)) == trim_end(
                v@.subrange(a as int, b as int),
            ),
            forall|k: int| b <= k < hi ==> is_whitespace(v[k]),
        decreases b - a,
    {
        assert(v@.subrange(a as int, b as int).drop_last() =~= v@.subrange(a as int, b - 1));
        b -= 1;
    }
    (a, b)
}

} // verus!
