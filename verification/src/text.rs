//! Character-level string operations with their meaning stated over `Seq<char>`.
use vstd::prelude::*;
use vstd::string::StrSliceExecFns;
use vstd::string::StringExecFns;

verus! {

/// The characters with the Unicode `White_Space` property (what `char::is_whitespace` accepts).
pub open spec fn white_space(c: char) -> bool {
    ||| ('\u{9}' <= c && c <= '\u{d}')
    ||| c == ' '
    ||| c == '\u{85}'
    ||| c == '\u{a0}'
    ||| c == '\u{1680}'
    ||| ('\u{2000}' <= c && c <= '\u{200a}')
    ||| c == '\u{2028}'
    ||| c == '\u{2029}'
    ||| c == '\u{202f}'
    ||| c == '\u{205f}'
    ||| c == '\u{3000}'
}

/// `s` without its leading white space.
pub open spec fn trim_start(s: Seq<char>) -> Seq<char>
    decreases s.len(),
{
    if s.len() > 0 && white_space(s[0]) {
        trim_start(s.drop_first())
    } else {
        s
    }
}

/// `s` without its trailing white space.
pub open spec fn trim_end(s: Seq<char>) -> Seq<char>
    decreases s.len(),
{
    if s.len() > 0 && white_space(s.last()) {
        trim_end(s.drop_last())
    } else {
        s
    }
}

/// `s` without white space at either end.
pub open spec fn trimmed(s: Seq<char>) -> Seq<char> {
    trim_end(trim_start(s))
}

/// `s` without its trailing `c` characters.
pub open spec fn trim_end_char(s: Seq<char>, c: char) -> Seq<char>
    decreases s.len(),
{
    if s.len() > 0 && s.last() == c {
        trim_end_char(s.drop_last(), c)
    } else {
        s
    }
}

/// Whether `s` begins with `prefix`.
pub open spec fn has_prefix(s: Seq<char>, prefix: Seq<char>) -> bool {
    prefix.len() <= s.len() && s.subrange(0, prefix.len() as int) == prefix
}

/// Whether `s` ends with `suffix`.
pub open spec fn has_suffix(s: Seq<char>, suffix: Seq<char>) -> bool {
    suffix.len() <= s.len() && s.subrange(s.len() - suffix.len(), s.len() as int) == suffix
}

/// Whether `pat` occurs in `s` starting at position `i`.
pub open spec fn occurs_at(s: Seq<char>, pat: Seq<char>, i: int) -> bool {
    0 <= i && i + pat.len() <= s.len() && s.subrange(i, i + pat.len()) == pat
}

/// Whether position `i` is the first place `pat` occurs in `s`.
pub open spec fn first_occurrence(s: Seq<char>, pat: Seq<char>, i: int) -> bool {
    occurs_at(s, pat, i) && forall|j: int| 0 <= j < i ==> !#[trigger] occurs_at(s, pat, j)
}

/// `s` with the first occurrence of `pat` (if any) replaced by `rep`.
pub open spec fn replace_first(s: Seq<char>, pat: Seq<char>, rep: Seq<char>) -> Seq<char> {
    if exists|i: int| #[trigger] first_occurrence(s, pat, i) {
        let i = choose|i: int| #[trigger] first_occurrence(s, pat, i);
        s.subrange(0, i) + rep + s.subrange(i + pat.len(), s.len() as int)
    } else {
        s
    }
}

/// Wherever `pat` occurs at all, it has a first occurrence: `replace_first` leaves
/// `s` alone only when `pat` does not occur in it.
pub proof fn lemma_first_occurrence_exists(s: Seq<char>, pat: Seq<char>, i: int)
    requires
        occurs_at(s, pat, i),
    ensures
        exists|f: int| #[trigger] first_occurrence(s, pat, f) && f <= i,
    decreases i,
{
    if exists|j: int| 0 <= j < i && #[trigger] occurs_at(s, pat, j) {
        let j = choose|j: int| 0 <= j < i && #[trigger] occurs_at(s, pat, j);
        lemma_first_occurrence_exists(s, pat, j);
    } else {
        assert(first_occurrence(s, pat, i));
    }
}

/// Replacing the first occurrence leaves alone everything before the first place `pat` occurs.
pub proof fn lemma_replace_first_keeps_prefix(s: Seq<char>, pat: Seq<char>, rep: Seq<char>, k: int)
    requires
        0 <= k <= s.len(),
        forall|j: int| 0 <= j < k ==> !#[trigger] occurs_at(s, pat, j),
    ensures
        replace_first(s, pat, rep).len() >= k,
        replace_first(s, pat, rep).subrange(0, k) == s.subrange(0, k),
{
    if exists|i: int| #[trigger] first_occurrence(s, pat, i) {
        let i = choose|i: int| #[trigger] first_occurrence(s, pat, i);
        assert(occurs_at(s, pat, i));
        assert(i >= k);
        let a = s.subrange(0, i);
        let r = a + rep + s.subrange(i + pat.len(), s.len() as int);
        assert forall|x: int| 0 <= x < k implies r[x] == s[x] by {
            assert((a + rep)[x] == a[x]);
        }
        assert(r.subrange(0, k) =~= s.subrange(0, k));
    } else {
        assert(s.subrange(0, k) =~= s.subrange(0, k));
    }
}

/// Whether `c` is white space; the same set as `char::is_whitespace`.
pub fn is_white_space(c: char) -> (ws: bool)
    ensures
        ws == white_space(c),
{
    ('\u{9}' <= c && c <= '\u{d}') || c == ' ' || c == '\u{85}' || c == '\u{a0}' || c == '\u{1680}'
        || ('\u{2000}' <= c && c <= '\u{200a}') || c == '\u{2028}' || c == '\u{2029}' || c
        == '\u{202f}' || c == '\u{205f}' || c == '\u{3000}'
}

proof fn lemma_trim_start_step(s: Seq<char>, i: int)
    requires
        0 <= i < s.len(),
        white_space(s[i]),
    ensures
        trim_start(s.subrange(i, s.len() as int)) == trim_start(s.subrange(i + 1, s.len() as int)),
{
    let t = s.subrange(i, s.len() as int);
    assert(t.drop_first() =~= s.subrange(i + 1, s.len() as int));
}

proof fn lemma_trim_end_step(s: Seq<char>, j: int)
    requires
        0 < j <= s.len(),
        white_space(s[j - 1]),
    ensures
        trim_end(s.subrange(0, j)) == trim_end(s.subrange(0, j - 1)),
{
    let t = s.subrange(0, j);
    assert(t.drop_last() =~= s.subrange(0, j - 1));
}

/// `s` without white space at either end, as `str::trim` gives it.
pub fn trim(s: &str) -> (t: &str)
    ensures
        t@ == trimmed(s@),
{
    let n = s.unicode_len();
    assert(s@.subrange(0, n as int) =~= s@);
    let mut i: usize = 0;
    while i < n && is_white_space(s.get_char(i))
        invariant
            n == s@.len(),
            i <= n,
            trim_start(s@) == trim_start(s@.subrange(i as int, n as int)),
        decreases n - i,
    {
        proof {
            lemma_trim_start_step(s@, i as int);
        }
        i = i + 1;
    }
    proof {
        let rest = s@.subrange(i as int, n as int);
        if i < n {
            assert(rest[0] == s@[i as int]);
        }
        assert(trim_start(s@) == rest);
    }
    let ghost front = s@.subrange(i as int, n as int);
    let mut j: usize = n;
    while j > i && is_white_space(s.get_char(j - 1))
        invariant
            n == s@.len(),
            i <= j <= n,
            front == s@.subrange(i as int, n as int),
            trim_end(front) == trim_end(s@.subrange(i as int, j as int)),
        decreases j - i,
    {
        proof {
            let u = s@.subrange(i as int, j as int);
            assert(u[u.len() - 1] == s@[j - 1]);
            lemma_trim_end_step(u, u.len() as int);
            assert(u.subrange(0, u.len() - 1) =~= s@.subrange(i as int, j - 1));
            assert(u.subrange(0, u.len() as int) =~= u);
        }
        j = j - 1;
    }
    proof {
        let u = s@.subrange(i as int, j as int);
        if j > i {
            assert(u.last() == s@[j - 1]);
        }
        assert(trim_end(u) == u);
    }
    s.substring_char(i, j)
}

/// Whether `s` begins with `prefix`.
pub fn starts_with(s: &str, prefix: &str) -> (b: bool)
    ensures
        b == has_prefix(s@, prefix@),
{
    let n = s.unicode_len();
    let m = prefix.unicode_len();
    if m > n {
        return false;
    }
    let mut i: usize = 0;
    while i < m
        invariant
            n == s@.len(),
            m == prefix@.len(),
            m <= n,
            i <= m,
            forall|k: int| 0 <= k < i ==> s@[k] == prefix@[k],
        decreases m - i,
    {
        if s.get_char(i) != prefix.get_char(i) {
            proof {
                assert(s@.subrange(0, m as int)[i as int] != prefix@[i as int]);
            }
            return false;
        }
        i = i + 1;
    }
    assert(s@.subrange(0, m as int) =~= prefix@);
    true
}

/// Whether `s` ends with `suffix`.
pub fn ends_with(s: &str, suffix: &str) -> (b: bool)
    ensures
        b == has_suffix(s@, suffix@),
{
    let n = s.unicode_len();
    let m = suffix.unicode_len();
    if m > n {
        return false;
    }
    let off = n - m;
    let mut i: usize = 0;
    while i < m
        invariant
            n == s@.len(),
            m == suffix@.len(),
            off == n - m,
            i <= m,
            forall|k: int| 0 <= k < i ==> s@[off + k] == suffix@[k],
        decreases m - i,
    {
        if s.get_char(off + i) != suffix.get_char(i) {
            proof {
                assert(s@.subrange(off as int, n as int)[i as int] != suffix@[i as int]);
            }
            return false;
        }
        i = i + 1;
    }
    assert(s@.subrange(off as int, n as int) =~= suffix@);
    true
}

/// `s` without its trailing `c` characters, as `str::trim_end_matches(c)` gives it.
pub fn trim_end_matching(s: &str, c: char) -> (t: &str)
    ensures
        t@ == trim_end_char(s@, c),
{
    let n = s.unicode_len();
    assert(s@.subrange(0, n as int) =~= s@);
    let mut j: usize = n;
    while j > 0 && s.get_char(j - 1) == c
        invariant
            n == s@.len(),
            j <= n,
            trim_end_char(s@, c) == trim_end_char(s@.subrange(0, j as int), c),
        decreases j,
    {
        proof {
            let u = s@.subrange(0, j as int);
            assert(u.drop_last() =~= s@.subrange(0, j - 1));
        }
        j = j - 1;
    }
    proof {
        let u = s@.subrange(0, j as int);
        if j > 0 {
            assert(u.last() == s@[j - 1]);
        }
    }
    s.substring_char(0, j)
}

/// Whether `pat` occurs in `s` at position `i`.
fn occurs_here(s: &str, pat: &str, i: usize) -> (b: bool)
    requires
        i + pat@.len() <= s@.len(),
    ensures
        b == occurs_at(s@, pat@, i as int),
{
    let n = s.unicode_len();
    let m = pat.unicode_len();
    let mut k: usize = 0;
    while k < m
        invariant
            m == pat@.len(),
            n == s@.len(),
            i + m <= n,
            k <= m,
            forall|x: int| 0 <= x < k ==> s@[i + x] == pat@[x],
        decreases m - k,
    {
        if s.get_char(i + k) != pat.get_char(k) {
            proof {
                assert(s@.subrange(i as int, i + m)[k as int] != pat@[k as int]);
            }
            return false;
        }
        k = k + 1;
    }
    assert(s@.subrange(i as int, i + m) =~= pat@);
    true
}

/// `s` with the first occurrence of `pat` replaced by `rep`, as `str::replacen(pat, rep, 1)` gives it.
pub fn replace_first_match(s: &str, pat: &str, rep: &str) -> (r: String)
    ensures
        r@ == replace_first(s@, pat@, rep@),
{
    let n = s.unicode_len();
    let m = pat.unicode_len();
    if m > n {
        proof {
            assert forall|i: int| !#[trigger] first_occurrence(s@, pat@, i) by {}
        }
        return String::from_str(s);
    }
    if m == 0 {
        proof {
            assert(s@.subrange(0, 0) =~= pat@);
            assert(occurs_at(s@, pat@, 0));
            assert(first_occurrence(s@, pat@, 0));
            let c = choose|c: int| #[trigger] first_occurrence(s@, pat@, c);
            if c > 0 {
                assert(!occurs_at(s@, pat@, 0));
            }
            assert(s@.subrange(0, 0) + rep@ + s@.subrange(0, n as int) =~= rep@ + s@);
        }
        let mut r = String::from_str(rep);
        r.append(s);
        return r;
    }
    let mut i: usize = 0;
    while i <= n - m
        invariant
            n == s@.len(),
            m == pat@.len(),
            1 <= m <= n,
            i <= n - m + 1,
            forall|j: int| 0 <= j < i ==> !#[trigger] occurs_at(s@, pat@, j),
        decreases n - m + 1 - i,
    {
        if occurs_here(s, pat, i) {
            proof {
                assert(first_occurrence(s@, pat@, i as int));
                let c = choose|c: int| #[trigger] first_occurrence(s@, pat@, c);
                if c < i {
                } else if c > i {
                    assert(!occurs_at(s@, pat@, i as int));
                }
                assert(c == i);
            }
            let mut r = String::from_str(s.substring_char(0, i));
            r.append(rep);
            r.append(s.substring_char(i + m, n));
            return r;
        }
        i = i + 1;
    }
    proof {
        assert forall|j: int| !#[trigger] first_occurrence(s@, pat@, j) by {
            if first_occurrence(s@, pat@, j) {
                assert(j < i);
            }
        }
    }
    String::from_str(s)
}


/// Whether two strings hold the same characters.
pub fn same_text(a: &str, b: &str) -> (same: bool)
    ensures
        same == (a@ == b@),
{
    let n = a.unicode_len();
    if n != b.unicode_len() {
        return false;
    }
    let mut i: usize = 0;
    while i < n
        invariant
            n == a@.len(),
            n == b@.len(),
            i <= n,
            forall|k: int| 0 <= k < i ==> a@[k] == b@[k],
        decreases n - i,
    {
        if a.get_char(i) != b.get_char(i) {
            return false;
        }
        i = i + 1;
    }
    assert(a@ =~= b@);
    true
}

} // verus!
