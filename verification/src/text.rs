//! Character sequences: white space, trimming, lines, and searching.
//!
//! What each function computes is stated over `Seq<char>`, the view of a
//! string; the executable function on `&str` is proved to compute it.

use vstd::prelude::*;

verus! {

/// Whether `c` is Unicode white space.
pub open spec fn is_white_space(c: char) -> bool {
    let n = c as u32;
    ||| 0x09 <= n <= 0x0D
    ||| n == 0x20
    ||| n == 0x85
    ||| n == 0xA0
    ||| n == 0x1680
    ||| 0x2000 <= n <= 0x200A
    ||| n == 0x2028
    ||| n == 0x2029
    ||| n == 0x202F
    ||| n == 0x205F
    ||| n == 0x3000
}

/// `s` without its leading white space.
pub open spec fn trim_start_of(s: Seq<char>) -> Seq<char>
    decreases s.len(),
{
    if s.len() > 0 && is_white_space(s.first()) {
        trim_start_of(s.drop_first())
    } else {
        s
    }
}

/// `s` without its trailing white space.
pub open spec fn trim_end_of(s: Seq<char>) -> Seq<char>
    decreases s.len(),
{
    if s.len() > 0 && is_white_space(s.last()) {
        trim_end_of(s.drop_last())
    } else {
        s
    }
}

/// `s` without leading and trailing white space.
pub open spec fn trimmed(s: Seq<char>) -> Seq<char> {
    trim_end_of(trim_start_of(s))
}

/// The index of the first `c` in `s`, or the length of `s` if there is none.
pub open spec fn first_index_of(s: Seq<char>, c: char) -> nat
    decreases s.len(),
{
    if s.len() == 0 || s.first() == c {
        0
    } else {
        1 + first_index_of(s.drop_first(), c)
    }
}

/// `line` without one trailing carriage return.
pub open spec fn without_carriage_return(line: Seq<char>) -> Seq<char> {
    if line.len() > 0 && line.last() == '\r' {
        line.drop_last()
    } else {
        line
    }
}

/// The lines of `s`. A line ends at a line feed, or at a carriage return
/// directly followed by one; the terminator is not part of the line. The last
/// line needs no terminator (and then keeps a trailing carriage return), and
/// nothing follows a final terminator.
pub open spec fn lines_of(s: Seq<char>) -> Seq<Seq<char>>
    decreases s.len(),
{
    if s.len() == 0 {
        Seq::empty()
    } else {
        let k = first_index_of(s, '\n');
        if k >= s.len() {
            seq![s]
        } else {
            seq![without_carriage_return(s.take(k as int))] + lines_of(s.skip(k as int + 1))
        }
    }
}

/// Whether `pattern` stands in `text` at index `i`.
pub open spec fn occurs_at(text: Seq<char>, pattern: Seq<char>, i: int) -> bool {
    &&& 0 <= i
    &&& i + pattern.len() <= text.len()
    &&& text.subrange(i, i + pattern.len()) == pattern
}

/// Whether `pattern` stands somewhere in `text`.
pub open spec fn contains(text: Seq<char>, pattern: Seq<char>) -> bool {
    exists|i: int| occurs_at(text, pattern, i)
}

/// Whether `text` begins with `pattern`.
pub open spec fn begins_with(text: Seq<char>, pattern: Seq<char>) -> bool {
    occurs_at(text, pattern, 0)
}

/// Whether `i` is the first index at which `pattern` stands in `text`.
pub open spec fn first_occurrence(text: Seq<char>, pattern: Seq<char>, i: int) -> bool {
    &&& occurs_at(text, pattern, i)
    &&& forall|j: int| 0 <= j < i ==> !occurs_at(text, pattern, j)
}

/// The first index at which `pattern` stands in `text`, if there is one.
pub open spec fn position_of(text: Seq<char>, pattern: Seq<char>) -> Option<int> {
    if contains(text, pattern) {
        Some(choose|i: int| first_occurrence(text, pattern, i))
    } else {
        None
    }
}

/// `text` cut at the first occurrence of `pattern`: what stands before it and
/// what stands after it.
pub open spec fn split_once_of(text: Seq<char>, pattern: Seq<char>) -> Option<
    (Seq<char>, Seq<char>),
> {
    match position_of(text, pattern) {
        Some(i) => Some((text.take(i), text.skip(i + pattern.len()))),
        None => None,
    }
}

/// `text` with every occurrence of `pattern` replaced by `with`, found from
/// left to right, none overlapping another. An empty pattern occurs nowhere.
pub open spec fn replaced(text: Seq<char>, pattern: Seq<char>, with: Seq<char>) -> Seq<char>
    decreases text.len(),
{
    if pattern.len() == 0 || text.len() < pattern.len() {
        text
    } else if text.take(pattern.len() as int) == pattern {
        with + replaced(text.skip(pattern.len() as int), pattern, with)
    } else {
        seq![text.first()] + replaced(text.drop_first(), pattern, with)
    }
}

/// The views of the strings in `v`.
pub open spec fn texts(v: Seq<&str>) -> Seq<Seq<char>> {
    Seq::new(v.len(), |i: int| v[i]@)
}

/// Trimming the start skips exactly the leading run of white space.
pub proof fn lemma_trim_start(s: Seq<char>, i: int)
    requires
        0 <= i <= s.len(),
        forall|j: int| 0 <= j < i ==> is_white_space(#[trigger] s[j]),
        i == s.len() || !is_white_space(s[i]),
    ensures
        trim_start_of(s) == s.skip(i),
    decreases i,
{
    if i == 0 {
        assert(s.skip(0) == s);
    } else {
        let rest = s.drop_first();
        assert forall|j: int| 0 <= j < i - 1 implies is_white_space(#[trigger] rest[j]) by {
            assert(rest[j] == s[j + 1]);
        }
        lemma_trim_start(rest, i - 1);
        assert(rest.skip(i - 1) == s.skip(i));
    }
}

/// Trimming the end drops exactly the trailing run of white space.
pub proof fn lemma_trim_end(s: Seq<char>, j: int)
    requires
        0 <= j <= s.len(),
        forall|k: int| j <= k < s.len() ==> is_white_space(#[trigger] s[k]),
        j == 0 || !is_white_space(s[j - 1]),
    ensures
        trim_end_of(s) == s.take(j),
    decreases s.len() - j,
{
    if j == s.len() {
        assert(s.take(j) == s);
    } else {
        let rest = s.drop_last();
        assert(is_white_space(s[s.len() - 1]));
        lemma_trim_end(rest, j);
        assert(rest.take(j) == s.take(j));
    }
}

/// The first index of `c` is within `s` or at its end, and no `c` stands before it.
pub proof fn lemma_first_index_of(s: Seq<char>, c: char)
    ensures
        first_index_of(s, c) <= s.len(),
        forall|j: int| 0 <= j < first_index_of(s, c) ==> s[j] != c,
        first_index_of(s, c) < s.len() ==> s[first_index_of(s, c) as int] == c,
    decreases s.len(),
{
    if s.len() == 0 || s.first() == c {
    } else {
        let rest = s.drop_first();
        lemma_first_index_of(rest, c);
        assert forall|j: int| 0 <= j < first_index_of(s, c) implies s[j] != c by {
            if j > 0 {
                assert(rest[j - 1] == s[j]);
            }
        }
    }
}

/// The index `k` is the first index of `c` in `s` if no `c` stands before it
/// and it is the end of `s` or holds `c`.
pub proof fn lemma_first_index_is(s: Seq<char>, c: char, k: int)
    requires
        0 <= k <= s.len(),
        forall|j: int| 0 <= j < k ==> s[j] != c,
        k == s.len() || s[k] == c,
    ensures
        first_index_of(s, c) == k,
{
    lemma_first_index_of(s, c);
    let f = first_index_of(s, c) as int;
    if f < k {
        assert(s[f] == c);
    } else if k < f {
        assert(s[k] != c);
    }
}

/// A first occurrence is the position of the pattern.
pub proof fn lemma_position_is(text: Seq<char>, pattern: Seq<char>, i: int)
    requires
        first_occurrence(text, pattern, i),
    ensures
        position_of(text, pattern) == Some(i),
{
    assert(contains(text, pattern));
    let k = choose|k: int| first_occurrence(text, pattern, k);
    assert(first_occurrence(text, pattern, k));
    if k < i {
        assert(!occurs_at(text, pattern, k));
    } else if i < k {
        assert(!occurs_at(text, pattern, i));
    }
}

/// The position of a pattern, where there is one, is its first occurrence.
pub proof fn lemma_position_of(text: Seq<char>, pattern: Seq<char>)
    ensures
        match position_of(text, pattern) {
            Some(i) => first_occurrence(text, pattern, i),
            None => !contains(text, pattern),
        },
{
    if contains(text, pattern) {
        let w = choose|i: int| occurs_at(text, pattern, i);
        lemma_least_occurrence(text, pattern, w);
    }
}

/// Below any occurrence there is a first one.
proof fn lemma_least_occurrence(text: Seq<char>, pattern: Seq<char>, w: int)
    requires
        occurs_at(text, pattern, w),
    ensures
        exists|i: int| first_occurrence(text, pattern, i),
    decreases w,
{
    if exists|j: int| 0 <= j < w && occurs_at(text, pattern, j) {
        let j = choose|j: int| 0 <= j < w && occurs_at(text, pattern, j);
        lemma_least_occurrence(text, pattern, j);
    } else {
        assert(first_occurrence(text, pattern, w));
    }
}

/// Whether no proper prefix of `pattern` is also a suffix of it.
pub open spec fn unbordered(pattern: Seq<char>) -> bool {
    forall|d: int|
        0 < d < pattern.len() ==> pattern.skip(d) != #[trigger] pattern.take(pattern.len() - d)
}

/// What stands before the first occurrence of a pattern does not hold the pattern.
pub proof fn lemma_before_first_occurrence(text: Seq<char>, pattern: Seq<char>, i: int)
    requires
        pattern.len() > 0,
        first_occurrence(text, pattern, i),
    ensures
        !contains(text.take(i), pattern),
{
    let before = text.take(i);
    assert forall|j: int| !occurs_at(before, pattern, j) by {
        if occurs_at(before, pattern, j) {
            assert(text.subrange(j, j + pattern.len()) =~= before.subrange(j, j + pattern.len()));
            assert(occurs_at(text, pattern, j));
        }
    }
}

/// A text put together from three parts is cut again where it was joined, if
/// the first part does not hold the pattern and the pattern cannot overlap
/// itself.
pub proof fn lemma_split_once_joined(before: Seq<char>, pattern: Seq<char>, after: Seq<char>)
    requires
        !contains(before, pattern),
        unbordered(pattern),
    ensures
        split_once_of(before + pattern + after, pattern) == Some((before, after)),
{
    let text = before + pattern + after;
    let b = before.len() as int;
    let m = pattern.len() as int;
    assert(text.subrange(b, b + m) =~= pattern);
    assert forall|j: int| 0 <= j < b implies !occurs_at(text, pattern, j) by {
        if occurs_at(text, pattern, j) {
            let found = text.subrange(j, j + m);
            if j + m <= b {
                assert(before.subrange(j, j + m) =~= found);
                assert(occurs_at(before, pattern, j));
            } else {
                let d = b - j;
                assert(pattern.skip(d) =~= pattern.take(m - d)) by {
                    assert forall|k: int| 0 <= k < m - d implies pattern.skip(d)[k]
                        == pattern.take(m - d)[k] by {
                        assert(found[k + d] == text[j + k + d]);
                        assert(text[b + k] == pattern[k]);
                    }
                }
            }
        }
    }
    lemma_position_is(text, pattern, b);
    assert(text.take(b) =~= before);
    assert(text.skip(b + m) =~= after);
}

/// A pattern whose last character stands nowhere else in it cannot overlap itself.
pub proof fn lemma_unbordered_by_last(pattern: Seq<char>)
    requires
        pattern.len() > 0,
        forall|k: int| 0 <= k < pattern.len() - 1 ==> pattern[k] != pattern.last(),
    ensures
        unbordered(pattern),
{
    let m = pattern.len() as int;
    assert forall|d: int| 0 < d < m implies pattern.skip(d) != #[trigger] pattern.take(m - d) by {
        assert(pattern.skip(d)[m - d - 1] == pattern[m - 1]);
        assert(pattern.take(m - d)[m - d - 1] == pattern[m - d - 1]);
    }
}

/// A pattern whose first character stands nowhere else in it cannot overlap itself.
pub proof fn lemma_unbordered_by_first(pattern: Seq<char>)
    requires
        pattern.len() > 0,
        forall|k: int| 0 < k < pattern.len() ==> pattern[k] != pattern.first(),
    ensures
        unbordered(pattern),
{
    let m = pattern.len() as int;
    assert forall|d: int| 0 < d < m implies pattern.skip(d) != #[trigger] pattern.take(m - d) by {
        assert(pattern.skip(d)[0] == pattern[d]);
        assert(pattern.take(m - d)[0] == pattern[0]);
    }
}

/// Tests a character for Unicode white space.
pub fn is_whitespace(c: char) -> (r: bool)
    ensures
        r == is_white_space(c),
{
    let n: u32 = c as u32;
    (0x09 <= n && n <= 0x0D) || n == 0x20 || n == 0x85 || n == 0xA0 || n == 0x1680 || (0x2000 <= n
        && n <= 0x200A) || n == 0x2028 || n == 0x2029 || n == 0x202F || n == 0x205F || n == 0x3000
}

/// The characters of `s`, in order.
pub fn chars_of(s: &str) -> (v: Vec<char>)
    ensures
        v@ == s@,
{
    broadcast use vstd::string::group_string_axioms;

    let mut v: Vec<char> = Vec::new();
    for c in it: s.chars()
        invariant
            it.seq() == s@,
            v@ == s@.take(it.index()),
    {
        v.push(c);
    }
    assert(s@.take(s@.len() as int) == s@);
    v
}

/// Whether two strings hold the same characters.
pub fn same_text(a: &str, b: &str) -> (r: bool)
    ensures
        r == (a@ == b@),
{
    let x = chars_of(a);
    let y = chars_of(b);
    if x.len() != y.len() {
        return false;
    }
    let mut i: usize = 0;
    while i < x.len()
        invariant
            i <= x.len(),
            x.len() == y.len(),
            x@ == a@,
            y@ == b@,
            forall|j: int| 0 <= j < i ==> x@[j] == y@[j],
        decreases x.len() - i,
    {
        if x[i] != y[i] {
            return false;
        }
        i = i + 1;
    }
    assert(x@ =~= y@);
    true
}

/// `s` without leading and trailing white space.
pub fn trim(s: &str) -> (r: &str)
    ensures
        r@ == trimmed(s@),
{
    let v = chars_of(s);
    let n = v.len();
    let mut i: usize = 0;
    while i < n && is_whitespace(v[i])
        invariant
            i <= n,
            n == v@.len(),
            forall|j: int| 0 <= j < i ==> is_white_space(#[trigger] v@[j]),
        decreases n - i,
    {
        i = i + 1;
    }
    let mut j: usize = n;
    while j > i && is_whitespace(v[j - 1])
        invariant
            i <= j <= n,
            n == v@.len(),
            forall|k: int| j <= k < n ==> is_white_space(#[trigger] v@[k]),
        decreases j,
    {
        j = j - 1;
    }
    proof {
        lemma_trim_start(s@, i as int);
        let t = s@.skip(i as int);
        assert forall|k: int| j - i <= k < t.len() implies is_white_space(#[trigger] t[k]) by {
            assert(t[k] == s@[k + i]);
        }
        lemma_trim_end(t, j - i);
        assert(t.take(j - i) == s@.subrange(i as int, j as int));
    }
    s.substring_char(i, j)
}

/// The lines of `s`, each without its terminator.
pub fn lines(s: &str) -> (r: Vec<&str>)
    ensures
        texts(r@) == lines_of(s@),
{
    let v = chars_of(s);
    let n = v.len();
    let mut r: Vec<&str> = Vec::new();
    let mut start: usize = 0;
    assert(s@.skip(0) == s@);
    assert(texts(r@) == Seq::<Seq<char>>::empty());
    while start < n
        invariant
            start <= n,
            n == v@.len(),
            v@ == s@,
            lines_of(s@) == texts(r@) + lines_of(s@.skip(start as int)),
        decreases n - start,
    {
        let ghost rest = s@.skip(start as int);
        let ghost before = texts(r@);
        let mut end: usize = start;
        while end < n && v[end] != '\n'
            invariant
                start <= end <= n,
                n == v@.len(),
                forall|j: int| start <= j < end ==> v@[j] != '\n',
            decreases n - end,
        {
            end = end + 1;
        }
        proof {
            assert forall|j: int| 0 <= j < end - start implies rest[j] != '\n' by {
                assert(rest[j] == v@[j + start]);
            }
            lemma_first_index_is(rest, '\n', end - start);
        }
        if end == n {
            let line = s.substring_char(start, n);
            r.push(line);
            proof {
                assert(line@ == rest);
                assert(lines_of(rest) == seq![rest]);
                assert(lines_of(s@.skip(n as int)) == Seq::<Seq<char>>::empty());
                assert(texts(r@) == before + seq![rest]);
            }
            start = n;
        } else {
            let stop = if end > start && v[end - 1] == '\r' {
                end - 1
            } else {
                end
            };
            let line = s.substring_char(start, stop);
            r.push(line);
            proof {
                let raw = rest.take(end - start);
                assert(raw == s@.subrange(start as int, end as int));
                if end > start {
                    assert(raw.last() == v@[end - 1]);
                }
                assert(line@ == without_carriage_return(raw)) by {
                    if end > start && v@[end - 1] == '\r' {
                        assert(raw.drop_last() == s@.subrange(start as int, stop as int));
                    }
                }
                assert(rest.skip(end - start + 1) == s@.skip(end + 1));
                assert(lines_of(rest) == seq![line@] + lines_of(s@.skip(end + 1)));
                assert(texts(r@) == before + seq![line@]);
            }
            start = end + 1;
        }
    }
    proof {
        assert(lines_of(s@.skip(n as int)) == Seq::<Seq<char>>::empty());
    }
    r
}

/// Whether `pattern` stands in `text` at index `i`.
pub fn matches_at(text: &Vec<char>, pattern: &Vec<char>, i: usize) -> (r: bool)
    ensures
        r == occurs_at(text@, pattern@, i as int),
{
    let n = text.len();
    let m = pattern.len();
    if i > n || m > n - i {
        return false;
    }
    let mut k: usize = 0;
    while k < m
        invariant
            k <= m,
            m == pattern@.len(),
            n == text@.len(),
            i + m <= n,
            forall|j: int| 0 <= j < k ==> text@[i + j] == pattern@[j],
        decreases m - k,
    {
        if text[i + k] != pattern[k] {
            proof {
                let part = text@.subrange(i as int, i + m);
                assert(part[k as int] == text@[i + k]);
            }
            return false;
        }
        k = k + 1;
    }
    assert(text@.subrange(i as int, i + m) =~= pattern@);
    true
}

/// The first index at which `pattern` stands in `text`.
pub fn find(text: &Vec<char>, pattern: &Vec<char>) -> (r: Option<usize>)
    ensures
        match r {
            Some(i) => position_of(text@, pattern@) == Some(i as int),
            None => position_of(text@, pattern@) is None,
        },
{
    let n = text.len();
    let mut i: usize = 0;
    while i < n
        invariant
            i <= n,
            n == text@.len(),
            forall|j: int| 0 <= j < i ==> !occurs_at(text@, pattern@, j),
        decreases n - i,
    {
        if matches_at(text, pattern, i) {
            proof {
                lemma_position_is(text@, pattern@, i as int);
            }
            return Some(i);
        }
        i = i + 1;
    }
    if matches_at(text, pattern, n) {
        proof {
            lemma_position_is(text@, pattern@, n as int);
        }
        return Some(n);
    }
    None
}

/// `text` cut at the first occurrence of `pattern`: what stands before it and
/// what stands after it.
pub fn split_once<'a>(text: &'a str, pattern: &str) -> (r: Option<(&'a str, &'a str)>)
    ensures
        match r {
            Some((before, after)) => split_once_of(text@, pattern@) == Some((before@, after@)),
            None => split_once_of(text@, pattern@) is None,
        },
{
    let t = chars_of(text);
    let p = chars_of(pattern);
    let n = t.len();
    let m = p.len();
    match find(&t, &p) {
        Some(i) => {
            proof {
                lemma_position_of(text@, pattern@);
                assert(occurs_at(text@, pattern@, i as int));
            }
            let before = text.substring_char(0, i);
            let after = text.substring_char(i + m, n);
            Some((before, after))
        },
        None => None,
    }
}

/// Whether `text` begins with `pattern`.
pub fn starts_with(text: &str, pattern: &str) -> (r: bool)
    ensures
        r == begins_with(text@, pattern@),
{
    let t = chars_of(text);
    let p = chars_of(pattern);
    matches_at(&t, &p, 0)
}

/// `text` with every occurrence of `pattern` replaced by `with`, found from
/// left to right, none overlapping another. An empty pattern occurs nowhere.
pub fn replace_all(text: &str, pattern: &str, with: &str) -> (r: String)
    ensures
        r@ == replaced(text@, pattern@, with@),
{
    let t = chars_of(text);
    let p = chars_of(pattern);
    let n = t.len();
    let m = p.len();
    if m == 0 || n < m {
        return text.to_owned();
    }
    let mut out = String::new();
    let mut kept: usize = 0;
    let mut i: usize = 0;
    assert(text@.subrange(0, 0) + replaced(text@.skip(0), pattern@, with@) =~= replaced(
        text@,
        pattern@,
        with@,
    )) by {
        assert(text@.skip(0) =~= text@);
    }
    while i <= n - m
        invariant
            0 < m <= n,
            n == t@.len(),
            m == p@.len(),
            t@ == text@,
            p@ == pattern@,
            kept <= i <= n,
            out@ + text@.subrange(kept as int, i as int) + replaced(
                text@.skip(i as int),
                pattern@,
                with@,
            ) == replaced(text@, pattern@, with@),
        decreases n - i,
    {
        let ghost rest = text@.skip(i as int);
        let ghost before = out@;
        proof {
            assert(rest.take(m as int) =~= text@.subrange(i as int, i + m));
        }
        if matches_at(&t, &p, i) {
            out.append(text.substring_char(kept, i));
            out.append(with);
            proof {
                assert(rest.skip(m as int) =~= text@.skip(i + m));
                assert(out@ + text@.subrange(i + m, i + m) + replaced(
                    text@.skip(i + m),
                    pattern@,
                    with@,
                ) =~= before + text@.subrange(kept as int, i as int) + (with@ + replaced(
                    text@.skip(i + m),
                    pattern@,
                    with@,
                )));
            }
            i = i + m;
            kept = i;
        } else {
            proof {
                assert(rest.drop_first() =~= text@.skip(i + 1));
                assert(out@ + text@.subrange(kept as int, i + 1) + replaced(
                    text@.skip(i + 1),
                    pattern@,
                    with@,
                ) =~= before + text@.subrange(kept as int, i as int) + (seq![rest.first()]
                    + replaced(text@.skip(i + 1), pattern@, with@)));
            }
            i = i + 1;
        }
    }
    out.append(text.substring_char(kept, n));
    proof {
        assert(replaced(text@.skip(i as int), pattern@, with@) == text@.skip(i as int));
        assert(text@.subrange(kept as int, i as int) + text@.skip(i as int) =~= text@.subrange(
            kept as int,
            n as int,
        ));
    }
    out
}

} // verus!
