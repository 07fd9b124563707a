//! Text primitives shared by the environment-variable parser, the output
//! relay and the path resolver: whitespace trimming, character search,
//! line splitting and substring replacement, each with a mathematical
//! definition over `Seq<char>` that the executable code is proved against.

use vstd::prelude::*;

verus! {

/// The characters this library treats as whitespace: the ASCII blank
/// characters (space, tab, line feed, vertical tab, form feed, carriage
/// return).
pub open spec fn is_space_char(c: char) -> bool {
    c == ' ' || c == '\t' || c == '\n' || c == '\u{000B}' || c == '\u{000C}' || c == '\r'
}

/// Executable whitespace test.
pub fn is_space(c: char) -> (b: bool)
    ensures
        b == is_space_char(c),
{
    c == ' ' || c == '\t' || c == '\n' || c == '\u{000B}' || c == '\u{000C}' || c == '\r'
}

/// `s` with its leading whitespace removed.
pub open spec fn trim_start(s: Seq<char>) -> Seq<char>
    decreases s.len(),
{
    if s.len() > 0 && is_space_char(s[0]) {
        trim_start(s.drop_first())
    } else {
        s
    }
}

/// `s` with its trailing whitespace removed.
pub open spec fn trim_end(s: Seq<char>) -> Seq<char>
    decreases s.len(),
{
    if s.len() > 0 && is_space_char(s.last()) {
        trim_end(s.drop_last())
    } else {
        s
    }
}

/// `s` with leading and trailing whitespace removed.
pub open spec fn trim(s: Seq<char>) -> Seq<char> {
    trim_end(trim_start(s))
}

/// The index of the first occurrence of `c` in `s`, or `-1` when `c` does
/// not occur.
pub open spec fn find_char(s: Seq<char>, c: char) -> int
    decreases s.len(),
{
    if s.len() == 0 {
        -1
    } else if s[0] == c {
        0
    } else {
        let r = find_char(s.drop_first(), c);
        if r < 0 {
            -1
        } else {
            r + 1
        }
    }
}

/// A first occurrence pins `find_char` down.
pub proof fn lemma_find_char_is_first(s: Seq<char>, c: char, i: int)
    requires
        0 <= i < s.len(),
        s[i] == c,
        forall|j: int| 0 <= j < i ==> s[j] != c,
    ensures
        find_char(s, c) == i,
    decreases s.len(),
{
    if i > 0 {
        assert(forall|j: int| 0 <= j < i - 1 ==> s.drop_first()[j] == s[j + 1]);
        lemma_find_char_is_first(s.drop_first(), c, i - 1);
    }
}

/// And absence pins it to `-1`.
pub proof fn lemma_find_char_absent(s: Seq<char>, c: char)
    requires
        forall|j: int| 0 <= j < s.len() ==> s[j] != c,
    ensures
        find_char(s, c) == -1,
    decreases s.len(),
{
    if s.len() > 0 {
        assert(forall|j: int| 0 <= j < s.drop_first().len() ==> s.drop_first()[j] == s[j + 1]);
        lemma_find_char_absent(s.drop_first(), c);
    }
}

/// The index of the first occurrence of `c` in `s`, executably.
pub fn find_char_in(s: &str, c: char) -> (r: Option<usize>)
    ensures
        match r {
            Some(i) => i < s@.len() && s@[i as int] == c && find_char(s@, c) == i as int,
            None => find_char(s@, c) == -1,
        },
{
    let n = s.unicode_len();
    let mut i: usize = 0;
    while i < n
        invariant
            i <= n,
            n == s@.len(),
            forall|j: int| 0 <= j < i ==> s@[j] != c,
        decreases n - i,
    {
        if s.get_char(i) == c {
            proof {
                lemma_find_char_is_first(s@, c, i as int);
            }
            return Some(i);
        }
        i = i + 1;
    }
    proof {
        lemma_find_char_absent(s@, c);
    }
    None
}

/// `s` split at every line feed. The line feeds themselves belong to no
/// line; text after the last line feed forms a final line only when it is
/// nonempty, so a trailing line feed adds no empty line.
pub open spec fn split_lines(s: Seq<char>) -> Seq<Seq<char>>
    decreases s.len(),
{
    if s.len() == 0 {
        Seq::empty()
    } else {
        let i = find_char(s, '\n');
        if 0 <= i < s.len() {
            seq![s.subrange(0, i)] + split_lines(s.subrange(i + 1, s.len() as int))
        } else {
            seq![s]
        }
    }
}

/// The position of the first line feed at or after `from`, or the end of
/// the text when there is none.
pub fn find_newline_from(s: &str, from: usize) -> (j: usize)
    requires
        from <= s@.len(),
    ensures
        from <= j <= s@.len(),
        forall|k: int| from <= k < j ==> s@[k] != '\n',
        j < s@.len() ==> s@[j as int] == '\n',
{
    let n = s.unicode_len();
    let mut j: usize = from;
    while j < n
        invariant
            from <= j <= n,
            n == s@.len(),
            forall|k: int| from <= k < j ==> s@[k] != '\n',
        decreases n - j,
    {
        if s.get_char(j) == '\n' {
            return j;
        }
        j = j + 1;
    }
    j
}

/// Trim the characters of `s` between `lo` and `hi` down to the bounds of
/// `trim(s@.subrange(lo, hi))`, returning the trimmed bounds.
fn trim_bounds(s: &str, lo: usize, hi: usize) -> (r: (usize, usize))
    requires
        lo <= hi <= s@.len(),
    ensures
        lo <= r.0 <= r.1 <= hi,
        s@.subrange(r.0 as int, r.1 as int) == trim(s@.subrange(lo as int, hi as int)),
{
    let mut a: usize = lo;
    while a < hi && is_space(s.get_char(a))
        invariant
            lo <= a <= hi <= s@.len(),
            trim_start(s@.subrange(lo as int, hi as int)) == trim_start(
                s@.subrange(a as int, hi as int),
            ),
        decreases hi - a,
    {
        proof {
            let t = s@.subrange(a as int, hi as int);
            assert(t.drop_first() =~= s@.subrange(a + 1, hi as int));
        }
        a = a + 1;
    }
    proof {
        let t = s@.subrange(a as int, hi as int);
        assert(trim_start(t) == t);
    }
    let mut b: usize = hi;
    while b > a && is_space(s.get_char(b - 1))
        invariant
            lo <= a <= b <= hi <= s@.len(),
            trim_end(s@.subrange(a as int, hi as int)) == trim_end(
                s@.subrange(a as int, b as int),
            ),
        decreases b,
    {
        proof {
            let t = s@.subrange(a as int, b as int);
            assert(t.drop_last() =~= s@.subrange(a as int, b - 1));
        }
        b = b - 1;
    }
    proof {
        let t = s@.subrange(a as int, b as int);
        assert(trim_end(t) == t);
    }
    (a, b)
}

/// Whether `pat` stands in `s` at position `i`.
pub open spec fn matches_at(s: Seq<char>, pat: Seq<char>, i: int) -> bool {
    0 <= i && i + pat.len() <= s.len() && s.subrange(i, i + pat.len() as int) == pat
}

/// The first position where the nonempty `pat` stands in `s`, or `-1` when
/// it does not occur. An empty pattern occurs nowhere.
pub open spec fn find_sub(s: Seq<char>, pat: Seq<char>) -> int
    decreases s.len(),
{
    if pat.len() == 0 || s.len() < pat.len() {
        -1
    } else if s.subrange(0, pat.len() as int) == pat {
        0
    } else {
        let r = find_sub(s.drop_first(), pat);
        if r < 0 {
            -1
        } else {
            r + 1
        }
    }
}

/// Occurrences shift with dropping the first character.
proof fn lemma_matches_at_drop_first(s: Seq<char>, pat: Seq<char>, i: int)
    requires
        s.len() > 0,
        1 <= i,
    ensures
        matches_at(s, pat, i) == matches_at(s.drop_first(), pat, i - 1),
{
    if i + pat.len() <= s.len() {
        assert(s.drop_first().subrange(i - 1, i - 1 + pat.len() as int) =~= s.subrange(
            i,
            i + pat.len() as int,
        ));
    }
}

/// A first occurrence pins `find_sub` down.
pub proof fn lemma_find_sub_is_first(s: Seq<char>, pat: Seq<char>, i: int)
    requires
        pat.len() > 0,
        matches_at(s, pat, i),
        forall|j: int| 0 <= j < i ==> !matches_at(s, pat, j),
    ensures
        find_sub(s, pat) == i,
    decreases s.len(),
{
    if i == 0 {
        assert(s.subrange(0, pat.len() as int) == pat);
    } else {
        assert(!matches_at(s, pat, 0));
        assert(s.subrange(0, pat.len() as int) != pat);
        lemma_matches_at_drop_first(s, pat, i);
        assert forall|j: int| 0 <= j < i - 1 implies !matches_at(s.drop_first(), pat, j) by {
            lemma_matches_at_drop_first(s, pat, j + 1);
        }
        lemma_find_sub_is_first(s.drop_first(), pat, i - 1);
    }
}

/// And absence pins it to `-1`.
pub proof fn lemma_find_sub_absent(s: Seq<char>, pat: Seq<char>)
    requires
        forall|j: int| 0 <= j < s.len() ==> !matches_at(s, pat, j),
    ensures
        find_sub(s, pat) == -1,
    decreases s.len(),
{
    if pat.len() == 0 || s.len() < pat.len() {
    } else {
        assert(!matches_at(s, pat, 0));
        assert(s.subrange(0, pat.len() as int) != pat);
        assert forall|j: int| 0 <= j < s.drop_first().len() implies !matches_at(
            s.drop_first(),
            pat,
            j,
        ) by {
            lemma_matches_at_drop_first(s, pat, j + 1);
        }
        lemma_find_sub_absent(s.drop_first(), pat);
    }
}

/// `s` with every occurrence of the nonempty `pat` replaced by `rep`,
/// scanning left to right without overlap, as a textual replacement does.
pub open spec fn replace_all(s: Seq<char>, pat: Seq<char>, rep: Seq<char>) -> Seq<char>
    decreases s.len(),
{
    let i = find_sub(s, pat);
    if pat.len() == 0 || i < 0 || i + pat.len() > s.len() {
        s
    } else {
        s.subrange(0, i) + rep + replace_all(
            s.subrange(i + pat.len() as int, s.len() as int),
            pat,
            rep,
        )
    }
}

/// Whether `pat` stands in `s` at position `i`, executably.
fn matches_at_in(s: &str, pat: &str, i: usize) -> (b: bool)
    requires
        i + pat@.len() <= s@.len(),
    ensures
        b == matches_at(s@, pat@, i as int),
{
    let n = s.unicode_len();
    let m = pat.unicode_len();
    let mut k: usize = 0;
    while k < m
        invariant
            k <= m,
            n == s@.len(),
            m == pat@.len(),
            i + m <= n,
            forall|l: int| 0 <= l < k ==> s@[i + l] == pat@[l],
        decreases m - k,
    {
        if s.get_char(i + k) != pat.get_char(k) {
            proof {
                assert(s@.subrange(i as int, i + m) != pat@) by {
                    assert(s@.subrange(i as int, i + m)[k as int] != pat@[k as int]);
                }
            }
            return false;
        }
        k = k + 1;
    }
    proof {
        assert(s@.subrange(i as int, i + m) =~= pat@);
    }
    true
}

/// The first position at or after `from` where `pat` stands in `s`,
/// executably.
fn find_match_from(s: &str, pat: &str, from: usize) -> (r: Option<usize>)
    requires
        from <= s@.len(),
        pat@.len() > 0,
    ensures
        match r {
            Some(i) => from <= i && matches_at(s@, pat@, i as int) && forall|j: int|
                from <= j < i ==> !matches_at(s@, pat@, j),
            None => forall|j: int| from <= j ==> !matches_at(s@, pat@, j),
        },
{
    let n = s.unicode_len();
    let m = pat.unicode_len();
    if m > n {
        return None;
    }
    let mut i: usize = from;
    while i <= n - m
        invariant
            from <= i,
            n == s@.len(),
            m == pat@.len(),
            0 < m <= n,
            forall|j: int| from <= j < i ==> !matches_at(s@, pat@, j),
        decreases n - i,
    {
        if matches_at_in(s, pat, i) {
            return Some(i);
        }
        i = i + 1;
    }
    None
}

/// `s` with every occurrence of `pat` replaced by `rep`, executably. An
/// empty pattern leaves `s` unchanged.
pub fn replace_all_in(s: &str, pat: &str, rep: &str) -> (r: String)
    ensures
        r@ == replace_all(s@, pat@, rep@),
{
    let n = s.unicode_len();
    let m = pat.unicode_len();
    if m == 0 {
        return s.to_owned();
    }
    let mut acc = String::new();
    let mut pos: usize = 0;
    proof {
        assert(s@.subrange(0, n as int) =~= s@);
        assert(acc@ + replace_all(s@, pat@, rep@) =~= replace_all(s@, pat@, rep@));
    }
    while pos < n
        invariant
            pos <= n,
            n == s@.len(),
            m == pat@.len(),
            0 < m,
            replace_all(s@, pat@, rep@) == acc@ + replace_all(
                s@.subrange(pos as int, n as int),
                pat@,
                rep@,
            ),
        decreases n - pos,
    {
        let ghost suffix = s@.subrange(pos as int, n as int);
        let ghost acc_before = acc@;
        match find_match_from(s, pat, pos) {
            Some(i) => {
                proof {
                    assert(suffix.subrange(i - pos, i - pos + m) =~= s@.subrange(
                        i as int,
                        i + m,
                    ));
                    assert(matches_at(suffix, pat@, i - pos));
                    assert forall|j: int| 0 <= j < i - pos implies !matches_at(
                        suffix,
                        pat@,
                        j,
                    ) by {
                        assert(!matches_at(s@, pat@, pos + j));
                        assert(suffix.subrange(j, j + m as int) =~= s@.subrange(
                            pos + j,
                            pos + j + m,
                        ));
                    }
                    lemma_find_sub_is_first(suffix, pat@, i - pos);
                    assert(suffix.subrange(0, i - pos) =~= s@.subrange(pos as int, i as int));
                    assert(suffix.subrange(i - pos + m, suffix.len() as int) =~= s@.subrange(
                        i + m,
                        n as int,
                    ));
                }
                let before = s.substring_char(pos, i);
                acc.append(before);
                acc.append(rep);
                proof {
                    assert(acc@ =~= acc_before + suffix.subrange(0, i - pos) + rep@);
                    assert(acc_before + replace_all(suffix, pat@, rep@) =~= acc@ + replace_all(
                        s@.subrange(i + m, n as int),
                        pat@,
                        rep@,
                    ));
                }
                pos = i + m;
            },
            None => {
                proof {
                    assert forall|j: int| 0 <= j < suffix.len() implies !matches_at(
                        suffix,
                        pat@,
                        j,
                    ) by {
                        assert(!matches_at(s@, pat@, pos + j));
                        if j + m <= suffix.len() {
                            assert(suffix.subrange(j, j + m as int) =~= s@.subrange(
                                pos + j,
                                pos + j + m,
                            ));
                        }
                    }
                    lemma_find_sub_absent(suffix, pat@);
                    assert(replace_all(suffix, pat@, rep@) == suffix);
                }
                let tail = s.substring_char(pos, n);
                acc.append(tail);
                proof {
                    assert(acc@ =~= acc_before + suffix);
                }
                pos = n;
            },
        }
    }
    proof {
        assert(s@.subrange(n as int, n as int) =~= Seq::<char>::empty());
        assert(replace_all(Seq::<char>::empty(), pat@, rep@) == Seq::<char>::empty());
        assert(acc@ + Seq::<char>::empty() =~= acc@);
    }
    acc
}

/// `s` with leading and trailing whitespace removed, executably.
pub fn trim_str(s: &str) -> (r: String)
    ensures
        r@ == trim(s@),
{
    let n = s.unicode_len();
    let (a, b) = trim_bounds(s, 0, n);
    proof {
        assert(s@.subrange(0, n as int) =~= s@);
    }
    let sub = s.substring_char(a, b);
    sub.to_owned()
}

} // verus!
