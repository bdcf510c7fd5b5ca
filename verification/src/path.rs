//! Path normalization: pure string transforms that canonicalize separator
//! styles, cut trailing glob markers, and join destination roots to path
//! fragments. No I/O happens here; every function is a total transform on
//! the characters of its inputs.

use vstd::prelude::*;

verus! {

/// A single character with `\` mapped to the canonical separator `/`.
pub open spec fn sep_normalized(c: char) -> char {
    if c == '\\' {
        '/'
    } else {
        c
    }
}

/// The whole string with every `\` mapped to `/`.
pub open spec fn normalize_seps(s: Seq<char>) -> Seq<char> {
    Seq::new(s.len(), |i: int| sep_normalized(s[i]))
}

/// `pat` occurs in `s` starting at index `i`.
pub open spec fn match_at(s: Seq<char>, pat: Seq<char>, i: int) -> bool {
    0 <= i && i + pat.len() <= s.len() && s.subrange(i, i + pat.len() as int) == pat
}

/// Index of the first occurrence of `pat` in `s`, or -1 when `pat` does not
/// occur. An empty pattern occurs at index 0.
pub open spec fn find_first(s: Seq<char>, pat: Seq<char>) -> int
    decreases s.len(),
{
    if match_at(s, pat, 0) {
        0
    } else if s.len() == 0 {
        -1
    } else {
        let r = find_first(s.subrange(1, s.len() as int), pat);
        if r < 0 {
            -1
        } else {
            r + 1
        }
    }
}

/// `match_at` on the tail of `s` is `match_at` on `s`, shifted by one.
proof fn lemma_match_at_shift(s: Seq<char>, pat: Seq<char>, j: int)
    requires
        s.len() > 0,
        j >= 0,
    ensures
        match_at(s.subrange(1, s.len() as int), pat, j) <==> match_at(s, pat, j + 1),
{
    let t = s.subrange(1, s.len() as int);
    if 0 <= j && j + pat.len() <= t.len() {
        assert(t.subrange(j, j + pat.len() as int) =~= s.subrange(j + 1, j + 1 + pat.len() as int));
    }
}

/// `find_first` returns either -1 with no occurrence anywhere, or the least
/// index at which `pat` occurs.
pub proof fn lemma_find_first(s: Seq<char>, pat: Seq<char>)
    ensures
        find_first(s, pat) >= -1,
        find_first(s, pat) >= 0 ==> match_at(s, pat, find_first(s, pat)),
        find_first(s, pat) >= 0 ==> forall|j: int| 0 <= j < find_first(s, pat) ==> !match_at(s, pat, j),
        find_first(s, pat) == -1 ==> forall|j: int| !match_at(s, pat, j),
    decreases s.len(),
{
    if match_at(s, pat, 0) {
    } else if s.len() == 0 {
        assert forall|j: int| !match_at(s, pat, j) by {
            if 0 <= j && j + pat.len() <= s.len() {
                assert(j == 0);
            }
        }
    } else {
        let t = s.subrange(1, s.len() as int);
        lemma_find_first(t, pat);
        let r = find_first(t, pat);
        if r < 0 {
            assert forall|j: int| !match_at(s, pat, j) by {
                if j >= 1 {
                    lemma_match_at_shift(s, pat, j - 1);
                }
            }
        } else {
            lemma_match_at_shift(s, pat, r);
            assert forall|j: int| 0 <= j < r + 1 implies !match_at(s, pat, j) by {
                if j >= 1 {
                    lemma_match_at_shift(s, pat, j - 1);
                }
            }
        }
    }
}

/// Whether `pat` occurs in `s` starting exactly at index `i`.
fn matches_at(s: &str, pat: &str, i: usize) -> (r: bool)
    requires
        i + pat@.len() <= s@.len(),
        s@.len() <= usize::MAX,
    ensures
        r == match_at(s@, pat@, i as int),
{
    let m = pat.unicode_len();
    let mut k: usize = 0;
    while k < m
        invariant
            k <= m,
            m == pat@.len(),
            i + m <= s@.len() <= usize::MAX,
            forall|t: int| 0 <= t < k ==> s@[i + t] == pat@[t],
        decreases m - k,
    {
        if s.get_char(i + k) != pat.get_char(k) {
            proof {
                assert(s@.subrange(i as int, i + m as int)[k as int] == s@[i + k]);
            }
            return false;
        }
        k += 1;
    }
    proof {
        assert(s@.subrange(i as int, i + m as int) =~= pat@);
    }
    true
}

/// Index of the first occurrence of `pat` in `s`, or `None` when it never
/// occurs.
pub fn find_first_str(s: &str, pat: &str) -> (r: Option<usize>)
    ensures
        r matches Some(i) ==> find_first(s@, pat@) == i as int,
        r is None ==> find_first(s@, pat@) == -1,
{
    let n = s.unicode_len();
    let m = pat.unicode_len();
    if m == 0 {
        proof {
            assert(s@.subrange(0, 0) =~= pat@);
        }
        return Some(0);
    }
    if m > n {
        proof {
            lemma_find_first(s@, pat@);
        }
        return None;
    }
    let mut i: usize = 0;
    while i <= n - m
        invariant
            1 <= m <= n,
            n == s@.len(),
            m == pat@.len(),
            i <= n - m + 1,
            forall|j: int| 0 <= j < i ==> !match_at(s@, pat@, j),
        decreases n - m + 1 - i,
    {
        if matches_at(s, pat, i) {
            proof {
                lemma_find_first(s@, pat@);
            }
            return Some(i);
        }
        i += 1;
    }
    proof {
        lemma_find_first(s@, pat@);
    }
    None
}

/// `s` with the first occurrence of `pat` replaced by `to`; `s` itself when
/// `pat` does not occur.
pub open spec fn replace_first(s: Seq<char>, pat: Seq<char>, to: Seq<char>) -> Seq<char> {
    let i = find_first(s, pat);
    if i < 0 {
        s
    } else {
        s.subrange(0, i) + to + s.subrange(i + pat.len() as int, s.len() as int)
    }
}

/// Replaces the first occurrence of `pat` in `s` by `to`.
pub fn replace_first_str(s: &str, pat: &str, to: &str) -> (r: String)
    ensures
        r@ == replace_first(s@, pat@, to@),
{
    match find_first_str(s, pat) {
        None => s.to_owned(),
        Some(i) => {
            let n = s.unicode_len();
            let m = pat.unicode_len();
            proof {
                lemma_find_first(s@, pat@);
            }
            let mut r = String::from_str(s.substring_char(0, i));
            r.append(to);
            r.append(s.substring_char(i + m, n));
            proof {
                assert(r@ =~= replace_first(s@, pat@, to@));
            }
            r
        },
    }
}

/// Copies `s` while mapping every `\` to `/`.
fn normalize_separators(s: &str) -> (r: String)
    ensures
        r@ == normalize_seps(s@),
{
    let n = s.unicode_len();
    let mut r = String::new();
    let mut i: usize = 0;
    while i < n
        invariant
            i <= n,
            n == s@.len(),
            r@ == normalize_seps(s@.subrange(0, i as int)),
        decreases n - i,
    {
        let c = s.get_char(i);
        if c == '\\' {
            r.append("/");
            proof {
                reveal_strlit("/");
            }
        } else {
            r.append(s.substring_char(i, i + 1));
        }
        proof {
            assert(r@ =~= normalize_seps(s@.subrange(0, i + 1 as int)));
        }
        i += 1;
    }
    proof {
        assert(s@.subrange(0, n as int) =~= s@);
        assert(r@ =~= normalize_seps(s@));
    }
    r
}

/// The two-character marker `/*` that ends a glob-suffixed directory path.
pub open spec fn glob_marker() -> Seq<char> {
    seq!['/', '*']
}

/// Everything before the first `/*`; the whole string when there is none.
pub open spec fn cut_glob(s: Seq<char>) -> Seq<char> {
    let i = find_first(s, glob_marker());
    if i < 0 {
        s
    } else {
        s.subrange(0, i)
    }
}

/// The string without a single leading `/`.
pub open spec fn strip_lead_sep(s: Seq<char>) -> Seq<char> {
    if s.len() > 0 && s[0] == '/' {
        s.subrange(1, s.len() as int)
    } else {
        s
    }
}

/// The normal form of a user-supplied path: separators canonicalized to `/`,
/// cut before the first `/*`, and one leading separator removed.
pub open spec fn corrected(s: Seq<char>) -> Seq<char> {
    strip_lead_sep(cut_glob(normalize_seps(s)))
}

/// Canonicalizes a path string: maps `\` separators to `/`, drops a trailing
/// glob-wildcard suffix (everything from the first `/*` on), and strips a
/// single leading separator.
pub fn correct(path: String) -> (r: String)
    ensures
        r@ == corrected(path@),
{
    let norm = normalize_separators(path.as_str());
    proof {
        reveal_strlit("/*");
        assert(("/*")@ =~= glob_marker());
    }
    let cut: String = match find_first_str(norm.as_str(), "/*") {
        None => norm,
        Some(i) => {
            proof {
                lemma_find_first(norm@, glob_marker());
            }
            String::from_str(norm.as_str().substring_char(0, i))
        },
    };
    let n = cut.as_str().unicode_len();
    if n > 0 && cut.as_str().get_char(0) == '/' {
        String::from_str(cut.as_str().substring_char(1, n))
    } else {
        cut
    }
}

/// `corrected`, with a leading `./` also removed.
pub open spec fn glob_root(s: Seq<char>) -> Seq<char> {
    let c = corrected(s);
    if c.len() >= 2 && c[0] == '.' && c[1] == '/' {
        c.subrange(2, c.len() as int)
    } else {
        c
    }
}

/// The canonical root of a glob source: `correct`, with a leading `./`
/// removed as well. The result is the prefix that relative destination
/// fragments are computed against.
pub fn glob_dir(path: String) -> (r: String)
    ensures
        r@ == glob_root(path@),
{
    let c = correct(path);
    let n = c.as_str().unicode_len();
    if n >= 2 && c.as_str().get_char(0) == '.' && c.as_str().get_char(1) == '/' {
        String::from_str(c.as_str().substring_char(2, n))
    } else {
        c
    }
}

/// The string without its trailing run of `/` separators.
pub open spec fn trim_trailing_seps(s: Seq<char>) -> Seq<char>
    decreases s.len(),
{
    if s.len() > 0 && s[s.len() - 1] == '/' {
        trim_trailing_seps(s.drop_last())
    } else {
        s
    }
}

/// `trim_trailing_seps` keeps exactly the prefix before the trailing run:
/// when everything from `e` on is `/` and the character before `e` is not,
/// the trimmed string is the prefix of length `e`.
proof fn lemma_trim_trailing_at(s: Seq<char>, e: int)
    requires
        0 <= e <= s.len(),
        forall|k: int| e <= k < s.len() ==> s[k] == '/',
        e > 0 ==> s[e - 1] != '/',
    ensures
        trim_trailing_seps(s) == s.subrange(0, e),
    decreases s.len(),
{
    if e == s.len() {
        assert(s.subrange(0, e) =~= s);
    } else {
        let t = s.drop_last();
        assert(t =~= s.subrange(0, s.len() - 1));
        lemma_trim_trailing_at(t, e);
        assert(t.subrange(0, e) =~= s.subrange(0, e));
    }
}

/// `p1` with separators canonicalized and its trailing run of separators
/// reduced to exactly one `/`, followed by the normal form of `p2`.
pub open spec fn joined(p1: Seq<char>, p2: Seq<char>) -> Seq<char> {
    trim_trailing_seps(normalize_seps(p1)).push('/') + corrected(p2)
}

/// Joins a destination root and a path fragment: the root ends with exactly
/// one trailing separator before concatenation, and the fragment is
/// canonicalized by `correct`.
pub fn join(pth1: String, pth2: String) -> (r: String)
    ensures
        r@ == joined(pth1@, pth2@),
{
    let a = normalize_separators(pth1.as_str());
    let n = a.as_str().unicode_len();
    let mut e: usize = n;
    loop
        invariant
            e <= n,
            n == a@.len(),
            a@ == normalize_seps(pth1@),
            forall|k: int| e <= k < n ==> a@[k] == '/',
        ensures
            e <= n,
            forall|k: int| e <= k < n ==> a@[k] == '/',
            e > 0 ==> a@[e - 1] != '/',
        decreases e,
    {
        if e == 0 {
            break;
        }
        if a.as_str().get_char(e - 1) != '/' {
            break;
        }
        e -= 1;
    }
    let mut r = String::from_str(a.as_str().substring_char(0, e));
    r.append("/");
    proof {
        reveal_strlit("/");
        lemma_trim_trailing_at(a@, e as int);
        assert(r@ =~= trim_trailing_seps(normalize_seps(pth1@)).push('/'));
    }
    let tail = correct(pth2);
    r.append(tail.as_str());
    r
}

/// Joining under one root keeps fragments apart: two fragments land on the
/// same destination path only when they have the same normal form. Distinct
/// relative paths in a source tree therefore stay distinct under the
/// destination root.
pub proof fn lemma_joined_injective(dest: Seq<char>, r1: Seq<char>, r2: Seq<char>)
    requires
        joined(dest, r1) == joined(dest, r2),
    ensures
        corrected(r1) == corrected(r2),
{
    let b = trim_trailing_seps(normalize_seps(dest)).push('/');
    let c1 = corrected(r1);
    let c2 = corrected(r2);
    assert((b + c1).len() == (b + c2).len());
    assert(c1 =~= c2) by {
        assert forall|k: int| 0 <= k < c1.len() implies c1[k] == c2[k] by {
            assert((b + c1)[b.len() + k] == c1[k]);
            assert((b + c2)[b.len() + k] == c2[k]);
        }
    }
}

} // verus!
