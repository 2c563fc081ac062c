//! Character-level text utilities: conversions between `String` and
//! `Vec<char>`, substring search, and leftmost replace-all, each specified
//! over `Seq<char>`.
use vstd::prelude::*;

verus! {

/// Relies on String::push: appending one character appends it to the view.
pub assume_specification[ std::string::String::push ](s: &mut String, c: char)
    ensures
        final(s)@ == old(s)@.push(c),
;

/// Collect the characters of a string slice into a vector.
pub fn to_chars(s: &str) -> (r: Vec<char>)
    ensures
        r@ == s@,
{
    let n = s.unicode_len();
    let mut r: Vec<char> = Vec::new();
    let mut i: usize = 0;
    while i < n
        invariant
            n == s@.len(),
            i <= n,
            r@ == s@.subrange(0, i as int),
        decreases n - i,
    {
        r.push(s.get_char(i));
        i = i + 1;
        proof {
            assert(r@ =~= s@.subrange(0, i as int));
        }
    }
    proof {
        assert(r@ =~= s@);
    }
    r
}

/// Build a string from a vector of characters.
pub fn chars_to_string(v: &Vec<char>) -> (r: String)
    ensures
        r@ == v@,
{
    let mut r = String::new();
    let mut i: usize = 0;
    while i < v.len()
        invariant
            i <= v@.len(),
            r@ == v@.subrange(0, i as int),
        decreases v@.len() - i,
    {
        r.push(v[i]);
        i = i + 1;
        proof {
            assert(r@ =~= v@.subrange(0, i as int));
        }
    }
    proof {
        assert(r@ =~= v@);
    }
    r
}

/// The pattern `pat` occurs in `s` starting at position `i`.
pub open spec fn contains_at(s: Seq<char>, pat: Seq<char>, i: int) -> bool {
    0 <= i && i + pat.len() <= s.len() && s.subrange(i, i + pat.len() as int) == pat
}

/// The pattern `pat` occurs somewhere in `s`.
pub open spec fn has_sub(s: Seq<char>, pat: Seq<char>) -> bool {
    exists|i: int| contains_at(s, pat, i)
}

/// Whether `pat` occurs at position `i` of `v`, decided by character comparison.
pub fn matches_at(v: &Vec<char>, pat: &Vec<char>, i: usize) -> (r: bool)
    requires
        i <= v@.len(),
    ensures
        r == contains_at(v@, pat@, i as int),
{
    if pat.len() > v.len() - i {
        proof {
            assert(!contains_at(v@, pat@, i as int));
        }
        return false;
    }
    let mut j: usize = 0;
    while j < pat.len()
        invariant
            v.len() == v@.len(),
            pat.len() == pat@.len(),
            i + pat@.len() <= v@.len(),
            j <= pat@.len(),
            forall|k: int| 0 <= k < j ==> v@[i + k] == pat@[k],
        decreases pat@.len() - j,
    {
        if v[i + j] != pat[j] {
            proof {
                assert(v@.subrange(i as int, i + pat@.len() as int)[j as int] == v@[i + j]);
                assert(v@.subrange(i as int, i + pat@.len() as int) != pat@);
            }
            return false;
        }
        j = j + 1;
    }
    proof {
        assert(v@.subrange(i as int, i + pat@.len() as int) =~= pat@);
    }
    true
}

/// Find the leftmost occurrence of `pat` in `v`, if any.
pub fn find_first(v: &Vec<char>, pat: &Vec<char>) -> (r: Option<usize>)
    ensures
        match r {
            Some(i) => contains_at(v@, pat@, i as int) && forall|j: int|
                0 <= j < i ==> !contains_at(v@, pat@, j),
            None => !has_sub(v@, pat@),
        },
{
    let mut i: usize = 0;
    while i < v.len()
        invariant
            v.len() == v@.len(),
            i <= v@.len(),
            forall|j: int| 0 <= j < i ==> !contains_at(v@, pat@, j),
        decreases v@.len() - i,
    {
        if matches_at(v, pat, i) {
            return Some(i);
        }
        i = i + 1;
    }
    if matches_at(v, pat, i) {
        return Some(i);
    }
    proof {
        assert(forall|j: int| contains_at(v@, pat@, j) ==> 0 <= j <= v@.len());
    }
    None
}

/// Replace every occurrence of `pat` in `s` by `rep`, scanning left to right
/// and never rescanning replaced text. An empty pattern leaves `s` unchanged.
pub open spec fn replace_all_spec(s: Seq<char>, pat: Seq<char>, rep: Seq<char>) -> Seq<char>
    decreases s.len(),
{
    if pat.len() == 0 || s.len() == 0 {
        s
    } else if contains_at(s, pat, 0) {
        rep + replace_all_spec(s.subrange(pat.len() as int, s.len() as int), pat, rep)
    } else {
        seq![s[0]] + replace_all_spec(s.subrange(1, s.len() as int), pat, rep)
    }
}

/// Replace every occurrence of `pat` in `v` by `rep`, leftmost first.
pub fn replace_all(v: &Vec<char>, pat: &Vec<char>, rep: &Vec<char>) -> (r: Vec<char>)
    ensures
        r@ == replace_all_spec(v@, pat@, rep@),
{
    if pat.len() == 0 {
        let mut r: Vec<char> = Vec::new();
        let mut i: usize = 0;
        while i < v.len()
            invariant
                i <= v@.len(),
                r@ == v@.subrange(0, i as int),
            decreases v@.len() - i,
        {
            r.push(v[i]);
            i = i + 1;
            proof {
                assert(r@ =~= v@.subrange(0, i as int));
            }
        }
        proof {
            assert(r@ =~= v@);
        }
        return r;
    }
    let mut r: Vec<char> = Vec::new();
    let mut i: usize = 0;
    proof {
        assert(v@.subrange(0, v@.len() as int) =~= v@);
        assert(Seq::<char>::empty() + replace_all_spec(v@, pat@, rep@) =~= replace_all_spec(
            v@,
            pat@,
            rep@,
        ));
    }
    while i < v.len()
        invariant
            v.len() == v@.len(),
            pat.len() == pat@.len(),
            pat@.len() > 0,
            i <= v@.len(),
            replace_all_spec(v@, pat@, rep@) == r@ + replace_all_spec(
                v@.subrange(i as int, v@.len() as int),
                pat@,
                rep@,
            ),
        decreases v@.len() - i,
    {
        let ghost suffix = v@.subrange(i as int, v@.len() as int);
        if matches_at(v, pat, i) {
            proof {
                assert(suffix.subrange(0, pat@.len() as int) =~= v@.subrange(
                    i as int,
                    i + pat@.len() as int,
                ));
                assert(contains_at(suffix, pat@, 0));
            }
            let ghost r0 = r@;
            let mut j: usize = 0;
            while j < rep.len()
                invariant
                    j <= rep@.len(),
                    r@ == r0 + rep@.subrange(0, j as int),
                decreases rep@.len() - j,
            {
                r.push(rep[j]);
                j = j + 1;
                proof {
                    assert(r@ =~= r0 + rep@.subrange(0, j as int));
                }
            }
            proof {
                assert(r@ =~= r0 + rep@);
                assert(suffix.subrange(pat@.len() as int, suffix.len() as int) =~= v@.subrange(
                    i + pat@.len() as int,
                    v@.len() as int,
                ));
                assert(replace_all_spec(suffix, pat@, rep@) == rep@ + replace_all_spec(
                    v@.subrange(i + pat@.len() as int, v@.len() as int),
                    pat@,
                    rep@,
                ));
                assert(r0 + (rep@ + replace_all_spec(
                    v@.subrange(i + pat@.len() as int, v@.len() as int),
                    pat@,
                    rep@,
                )) =~= r@ + replace_all_spec(
                    v@.subrange(i + pat@.len() as int, v@.len() as int),
                    pat@,
                    rep@,
                ));
            }
            i = i + pat.len();
        } else {
            proof {
                if contains_at(suffix, pat@, 0) {
                    assert(suffix.subrange(0, pat@.len() as int) =~= v@.subrange(
                        i as int,
                        i + pat@.len() as int,
                    ));
                    assert(false);
                }
                assert(suffix.subrange(1, suffix.len() as int) =~= v@.subrange(
                    i + 1,
                    v@.len() as int,
                ));
                assert(seq![suffix[0]] =~= seq![v@[i as int]]);
                assert(replace_all_spec(suffix, pat@, rep@) == seq![v@[i as int]]
                    + replace_all_spec(v@.subrange(i + 1, v@.len() as int), pat@, rep@));
                assert(r@ + (seq![v@[i as int]] + replace_all_spec(
                    v@.subrange(i + 1, v@.len() as int),
                    pat@,
                    rep@,
                )) =~= r@.push(v@[i as int]) + replace_all_spec(
                    v@.subrange(i + 1, v@.len() as int),
                    pat@,
                    rep@,
                ));
            }
            r.push(v[i]);
            i = i + 1;
        }
    }
    proof {
        assert(v@.subrange(i as int, v@.len() as int) =~= Seq::<char>::empty());
        assert(replace_all_spec(Seq::<char>::empty(), pat@, rep@) =~= Seq::<char>::empty());
        assert(r@ =~= r@ + Seq::<char>::empty());
    }
    r
}

/// The text is unchanged when the pattern never occurs in it.
pub proof fn lemma_replace_all_absent(s: Seq<char>, pat: Seq<char>, rep: Seq<char>)
    requires
        !has_sub(s, pat),
    ensures
        replace_all_spec(s, pat, rep) == s,
    decreases s.len(),
{
    if pat.len() == 0 || s.len() == 0 {
    } else {
        assert(!contains_at(s, pat, 0));
        let suf = s.subrange(1, s.len() as int);
        assert forall|i: int| !contains_at(suf, pat, i) by {
            if contains_at(suf, pat, i) {
                assert(s.subrange(i + 1, i + 1 + pat.len() as int) =~= suf.subrange(
                    i,
                    i + pat.len() as int,
                ));
                assert(contains_at(s, pat, i + 1));
            }
        }
        lemma_replace_all_absent(suf, pat, rep);
        assert(seq![s[0]] + suf =~= s);
    }
}

/// Replacing from the leftmost occurrence onward: if the first occurrence of
/// the pattern starts at `k`, the result is the prefix before `k`, then the
/// replacement, then the replaced remainder.
pub proof fn lemma_replace_all_at_first(s: Seq<char>, pat: Seq<char>, rep: Seq<char>, k: int)
    requires
        pat.len() > 0,
        contains_at(s, pat, k),
        forall|j: int| 0 <= j < k ==> !contains_at(s, pat, j),
    ensures
        replace_all_spec(s, pat, rep) == s.subrange(0, k) + rep + replace_all_spec(
            s.subrange(k + pat.len(), s.len() as int),
            pat,
            rep,
        ),
    decreases k,
{
    if k == 0 {
        assert(s.subrange(0, 0) =~= Seq::<char>::empty());
        assert(s.subrange(0, 0) + rep + replace_all_spec(
            s.subrange(pat.len() as int, s.len() as int),
            pat,
            rep,
        ) =~= rep + replace_all_spec(s.subrange(pat.len() as int, s.len() as int), pat, rep));
    } else {
        assert(!contains_at(s, pat, 0));
        let suf = s.subrange(1, s.len() as int);
        assert(suf.subrange(k - 1, k - 1 + pat.len() as int) =~= s.subrange(
            k,
            k + pat.len() as int,
        ));
        assert(contains_at(suf, pat, k - 1));
        assert forall|j: int| 0 <= j < k - 1 implies !contains_at(suf, pat, j) by {
            if contains_at(suf, pat, j) {
                assert(s.subrange(j + 1, j + 1 + pat.len() as int) =~= suf.subrange(
                    j,
                    j + pat.len() as int,
                ));
                assert(contains_at(s, pat, j + 1));
            }
        }
        lemma_replace_all_at_first(suf, pat, rep, k - 1);
        assert(suf.subrange(k - 1 + pat.len(), suf.len() as int) =~= s.subrange(
            k + pat.len(),
            s.len() as int,
        ));
        assert(seq![s[0]] + (suf.subrange(0, k - 1) + rep + replace_all_spec(
            s.subrange(k + pat.len(), s.len() as int),
            pat,
            rep,
        )) =~= s.subrange(0, k) + rep + replace_all_spec(
            s.subrange(k + pat.len(), s.len() as int),
            pat,
            rep,
        ));
    }
}

/// A token that occurs exactly twice in a text is resolved identically at
/// both occurrences: writing the text as `x + tok + y + tok + z`, replacement
/// yields `x + rep + y + rep + z`, with the same `rep` both times.
pub proof fn lemma_replace_all_uniform(
    x: Seq<char>,
    y: Seq<char>,
    z: Seq<char>,
    tok: Seq<char>,
    rep: Seq<char>,
)
    requires
        tok.len() > 0,
        forall|i: int|
            contains_at(x + tok + y + tok + z, tok, i) ==> i == x.len() || i == x.len() + tok.len()
                + y.len(),
    ensures
        replace_all_spec(x + tok + y + tok + z, tok, rep) == x + rep + y + rep + z,
{
    let s = x + tok + y + tok + z;
    let k1 = x.len() as int;
    assert(contains_at(s, tok, k1)) by {
        assert(s.subrange(k1, k1 + tok.len() as int) =~= tok);
    }
    lemma_replace_all_at_first(s, tok, rep, k1);
    let s2 = y + tok + z;
    assert(s.subrange(k1 + tok.len(), s.len() as int) =~= s2);
    let k2 = y.len() as int;
    assert(contains_at(s2, tok, k2)) by {
        assert(s2.subrange(k2, k2 + tok.len() as int) =~= tok);
    }
    assert forall|j: int| 0 <= j < k2 implies !contains_at(s2, tok, j) by {
        if contains_at(s2, tok, j) {
            assert(s.subrange(k1 + tok.len() + j, k1 + tok.len() + j + tok.len() as int)
                =~= s2.subrange(j, j + tok.len() as int));
            assert(contains_at(s, tok, k1 + tok.len() + j));
        }
    }
    lemma_replace_all_at_first(s2, tok, rep, k2);
    assert(s2.subrange(k2 + tok.len(), s2.len() as int) =~= z);
    assert forall|i: int| !contains_at(z, tok, i) by {
        if contains_at(z, tok, i) {
            let base = k1 + tok.len() + k2 + tok.len();
            assert(s.subrange(base + i, base + i + tok.len() as int) =~= z.subrange(
                i,
                i + tok.len() as int,
            ));
            assert(contains_at(s, tok, base + i));
        }
    }
    lemma_replace_all_absent(z, tok, rep);
    assert(s.subrange(0, k1) =~= x);
    assert(s2.subrange(0, k2) =~= y);
    assert(s.subrange(0, k1) + rep + (s2.subrange(0, k2) + rep + z) =~= x + rep + y + rep + z);
}

/// Whether two character vectors hold the same text.
pub fn chars_eq(a: &Vec<char>, b: &Vec<char>) -> (r: bool)
    ensures
        r == (a@ == b@),
{
    if a.len() != b.len() {
        return false;
    }
    let mut i: usize = 0;
    while i < a.len()
        invariant
            a.len() == a@.len(),
            a@.len() == b@.len(),
            i <= a@.len(),
            forall|k: int| 0 <= k < i ==> a@[k] == b@[k],
        decreases a@.len() - i,
    {
        if a[i] != b[i] {
            return false;
        }
        i = i + 1;
    }
    proof {
        assert(a@ =~= b@);
    }
    true
}

/// Whether two string slices hold the same text.
pub fn str_eq(a: &str, b: &str) -> (r: bool)
    ensures
        r == (a@ == b@),
{
    chars_eq(&to_chars(a), &to_chars(b))
}

/// The text `s` starts with the prefix `p`.
pub open spec fn starts_with_spec(s: Seq<char>, p: Seq<char>) -> bool {
    contains_at(s, p, 0)
}

/// The text `s` ends with the suffix `p`.
pub open spec fn ends_with_spec(s: Seq<char>, p: Seq<char>) -> bool {
    contains_at(s, p, s.len() - p.len())
}

/// Whether `v` starts with `p`.
pub fn starts_with_chars(v: &Vec<char>, p: &Vec<char>) -> (r: bool)
    ensures
        r == starts_with_spec(v@, p@),
{
    matches_at(v, p, 0)
}

/// Whether `v` ends with `p`.
pub fn ends_with_chars(v: &Vec<char>, p: &Vec<char>) -> (r: bool)
    ensures
        r == ends_with_spec(v@, p@),
{
    if p.len() > v.len() {
        proof {
            assert(!contains_at(v@, p@, v@.len() - p@.len()));
        }
        return false;
    }
    matches_at(v, p, v.len() - p.len())
}

/// The text with every trailing copy of `pat` removed.
pub open spec fn strip_suffix_all_spec(s: Seq<char>, pat: Seq<char>) -> Seq<char>
    decreases s.len(),
{
    if pat.len() > 0 && ends_with_spec(s, pat) {
        strip_suffix_all_spec(s.subrange(0, s.len() - pat.len()), pat)
    } else {
        s
    }
}

/// Remove every trailing copy of `pat`, as `str::trim_end_matches` does.
pub fn strip_suffix_all(v: &Vec<char>, pat: &Vec<char>) -> (r: Vec<char>)
    ensures
        r@ == strip_suffix_all_spec(v@, pat@),
    decreases v@.len(),
{
    if pat.len() > 0 && ends_with_chars(v, pat) {
        let mut shorter: Vec<char> = Vec::new();
        let keep = v.len() - pat.len();
        let mut i: usize = 0;
        while i < keep
            invariant
                v.len() == v@.len(),
                keep <= v@.len(),
                i <= keep,
                shorter@ == v@.subrange(0, i as int),
            decreases keep - i,
        {
            shorter.push(v[i]);
            i = i + 1;
            proof {
                assert(shorter@ =~= v@.subrange(0, i as int));
            }
        }
        strip_suffix_all(&shorter, pat)
    } else {
        let mut r: Vec<char> = Vec::new();
        let mut i: usize = 0;
        while i < v.len()
            invariant
                v.len() == v@.len(),
                i <= v@.len(),
                r@ == v@.subrange(0, i as int),
            decreases v@.len() - i,
        {
            r.push(v[i]);
            i = i + 1;
            proof {
                assert(r@ =~= v@.subrange(0, i as int));
            }
        }
        proof {
            assert(r@ =~= v@);
        }
        r
    }
}

/// Copy a subrange of the characters.
pub fn subrange_chars(v: &Vec<char>, from: usize, to: usize) -> (r: Vec<char>)
    requires
        from <= to <= v@.len(),
    ensures
        r@ == v@.subrange(from as int, to as int),
{
    let mut r: Vec<char> = Vec::new();
    let mut i: usize = from;
    while i < to
        invariant
            v.len() == v@.len(),
            from <= i <= to <= v@.len(),
            r@ == v@.subrange(from as int, i as int),
        decreases to - i,
    {
        r.push(v[i]);
        i = i + 1;
        proof {
            assert(r@ =~= v@.subrange(from as int, i as int));
        }
    }
    r
}

/// The characters that `str::trim` removes at either end of a line.
pub open spec fn is_space(c: char) -> bool {
    c == ' ' || c == '\t' || c == '\n' || c == '\r' || c == '\u{b}' || c == '\u{c}' || c == '\u{85}'
        || c == '\u{a0}' || c == '\u{1680}' || c == '\u{2000}' || c == '\u{2001}' || c == '\u{2002}'
        || c == '\u{2003}' || c == '\u{2004}' || c == '\u{2005}' || c == '\u{2006}'
        || c == '\u{2007}' || c == '\u{2008}' || c == '\u{2009}' || c == '\u{200a}'
        || c == '\u{2028}' || c == '\u{2029}' || c == '\u{202f}' || c == '\u{205f}'
        || c == '\u{3000}'
}

/// Whether a character counts as whitespace for trimming.
pub fn is_space_char(c: char) -> (r: bool)
    ensures
        r == is_space(c),
{
    c == ' ' || c == '\t' || c == '\n' || c == '\r' || c == '\u{b}' || c == '\u{c}' || c == '\u{85}'
        || c == '\u{a0}' || c == '\u{1680}' || c == '\u{2000}' || c == '\u{2001}' || c == '\u{2002}'
        || c == '\u{2003}' || c == '\u{2004}' || c == '\u{2005}' || c == '\u{2006}'
        || c == '\u{2007}' || c == '\u{2008}' || c == '\u{2009}' || c == '\u{200a}'
        || c == '\u{2028}' || c == '\u{2029}' || c == '\u{202f}' || c == '\u{205f}'
        || c == '\u{3000}'
}

pub open spec fn trim_start_spec(s: Seq<char>) -> Seq<char>
    decreases s.len(),
{
    if s.len() > 0 && is_space(s[0]) {
        trim_start_spec(s.subrange(1, s.len() as int))
    } else {
        s
    }
}

pub open spec fn trim_end_spec(s: Seq<char>) -> Seq<char>
    decreases s.len(),
{
    if s.len() > 0 && is_space(s[s.len() - 1]) {
        trim_end_spec(s.subrange(0, s.len() - 1))
    } else {
        s
    }
}

/// What `str::trim` leaves of a line.
pub open spec fn trim_spec(s: Seq<char>) -> Seq<char> {
    trim_end_spec(trim_start_spec(s))
}

proof fn lemma_trim_start_skip(s: Seq<char>, k: int)
    requires
        0 <= k <= s.len(),
        forall|j: int| 0 <= j < k ==> is_space(s[j]),
        k == s.len() || !is_space(s[k]),
    ensures
        trim_start_spec(s) == s.subrange(k, s.len() as int),
    decreases k,
{
    if k == 0 {
        assert(s.subrange(0, s.len() as int) =~= s);
    } else {
        let suf = s.subrange(1, s.len() as int);
        lemma_trim_start_skip(suf, k - 1);
        assert(suf.subrange(k - 1, suf.len() as int) =~= s.subrange(k, s.len() as int));
    }
}

proof fn lemma_trim_end_take(s: Seq<char>, m: int)
    requires
        0 <= m <= s.len(),
        forall|j: int| m <= j < s.len() ==> is_space(s[j]),
        m == 0 || !is_space(s[m - 1]),
    ensures
        trim_end_spec(s) == s.subrange(0, m),
    decreases s.len() - m,
{
    if m == s.len() {
        assert(s.subrange(0, s.len() as int) =~= s);
    } else {
        let pre = s.subrange(0, s.len() - 1);
        lemma_trim_end_take(pre, m);
        assert(pre.subrange(0, m) =~= s.subrange(0, m));
    }
}

/// Trim whitespace from both ends of a line.
pub fn trim_chars(v: &Vec<char>) -> (r: Vec<char>)
    ensures
        r@ == trim_spec(v@),
{
    let mut a: usize = 0;
    while a < v.len() && is_space_char(v[a])
        invariant
            v.len() == v@.len(),
            a <= v@.len(),
            forall|j: int| 0 <= j < a ==> is_space(v@[j]),
        decreases v@.len() - a,
    {
        a = a + 1;
    }
    proof {
        lemma_trim_start_skip(v@, a as int);
    }
    let mut b: usize = v.len();
    while b > a && is_space_char(v[b - 1])
        invariant
            v.len() == v@.len(),
            a <= b <= v@.len(),
            forall|j: int| b <= j < v@.len() ==> is_space(v@[j]),
        decreases b,
    {
        b = b - 1;
    }
    let ghost start = v@.subrange(a as int, v@.len() as int);
    proof {
        assert forall|j: int| b - a <= j < start.len() implies is_space(start[j]) by {
            assert(start[j] == v@[a + j]);
        }
        if b > a {
            assert(start[b - a - 1] == v@[b - 1]);
        }
        lemma_trim_end_take(start, b - a);
    }
    let mut r: Vec<char> = Vec::new();
    let mut i: usize = a;
    while i < b
        invariant
            v.len() == v@.len(),
            a <= i <= b <= v@.len(),
            r@ == v@.subrange(a as int, i as int),
        decreases b - i,
    {
        r.push(v[i]);
        i = i + 1;
        proof {
            assert(r@ =~= v@.subrange(a as int, i as int));
        }
    }
    proof {
        assert(start.subrange(0, b - a) =~= v@.subrange(a as int, b as int));
    }
    r
}

/// The pieces of a text, split on a separator character; a text without the
/// separator is one piece, and each separator starts a further (possibly
/// empty) piece.
pub open spec fn split_spec(s: Seq<char>, sep: char) -> Seq<Seq<char>>
    decreases s.len(),
{
    if s.len() == 0 {
        seq![Seq::<char>::empty()]
    } else if s[0] == sep {
        seq![Seq::<char>::empty()] + split_spec(s.subrange(1, s.len() as int), sep)
    } else {
        let rest = split_spec(s.subrange(1, s.len() as int), sep);
        seq![seq![s[0]] + rest[0]] + rest.subrange(1, rest.len() as int)
    }
}

pub proof fn lemma_split_nonempty(s: Seq<char>, sep: char)
    ensures
        split_spec(s, sep).len() >= 1,
    decreases s.len(),
{
    if s.len() > 0 {
        lemma_split_nonempty(s.subrange(1, s.len() as int), sep);
    }
}

spec fn prepend_first(c: Seq<char>, ls: Seq<Seq<char>>) -> Seq<Seq<char>> {
    seq![c + ls[0]] + ls.subrange(1, ls.len() as int)
}

/// Split a text at every occurrence of a separator character.
pub fn split_chars(v: &Vec<char>, sep: char) -> (r: Vec<Vec<char>>)
    ensures
        r.deep_view() == split_spec(v@, sep),
{
    let mut done: Vec<Vec<char>> = Vec::new();
    let mut cur: Vec<char> = Vec::new();
    let mut i: usize = 0;
    proof {
        assert(v@.subrange(0, v@.len() as int) =~= v@);
        lemma_split_nonempty(v@, sep);
        assert(done.deep_view() + prepend_first(cur@, split_spec(v@, sep)) =~= prepend_first(
            cur@,
            split_spec(v@, sep),
        ));
        assert(Seq::<char>::empty() + split_spec(v@, sep)[0] =~= split_spec(v@, sep)[0]);
        assert(prepend_first(cur@, split_spec(v@, sep)) =~= split_spec(v@, sep));
    }
    while i < v.len()
        invariant
            v.len() == v@.len(),
            i <= v@.len(),
            split_spec(v@.subrange(i as int, v@.len() as int), sep).len() >= 1,
            split_spec(v@, sep) == done.deep_view() + prepend_first(
                cur@,
                split_spec(v@.subrange(i as int, v@.len() as int), sep),
            ),
        decreases v@.len() - i,
    {
        let ghost suffix = v@.subrange(i as int, v@.len() as int);
        let ghost suffix1 = v@.subrange(i + 1, v@.len() as int);
        proof {
            assert(suffix.subrange(1, suffix.len() as int) =~= suffix1);
            lemma_split_nonempty(suffix1, sep);
        }
        let c = v[i];
        if c == sep {
            let ghost dv0 = done.deep_view();
            let ghost cur0 = cur@;
            proof {
                assert(split_spec(suffix, sep) =~= seq![Seq::<char>::empty()] + split_spec(suffix1, sep));
                assert(cur@ + Seq::<char>::empty() =~= cur@);
                assert(prepend_first(cur@, split_spec(suffix, sep)) =~= seq![cur@]
                    + split_spec(suffix1, sep));
                assert(Seq::<char>::empty() + split_spec(suffix1, sep)[0] =~= split_spec(suffix1, sep)[0]);
                assert(prepend_first(Seq::<char>::empty(), split_spec(suffix1, sep))
                    =~= split_spec(suffix1, sep));
            }
            done.push(cur);
            cur = Vec::new();
            proof {
                assert(done.deep_view() =~~= dv0.push(cur0));
                assert(dv0.push(cur0) + split_spec(suffix1, sep) =~= dv0 + (seq![cur0]
                    + split_spec(suffix1, sep)));
            }
        } else {
            proof {
                let rest = split_spec(suffix1, sep);
                assert(split_spec(suffix, sep) =~= seq![seq![suffix[0]] + rest[0]] + rest.subrange(
                    1,
                    rest.len() as int,
                ));
                assert(suffix[0] == v@[i as int]);
                assert(cur@ + (seq![v@[i as int]] + rest[0]) =~= cur@.push(v@[i as int]) + rest[0]);
                assert(prepend_first(cur@, split_spec(suffix, sep)) =~= prepend_first(
                    cur@.push(v@[i as int]),
                    rest,
                ));
            }
            cur.push(c);
        }
        i = i + 1;
    }
    let ghost dv0 = done.deep_view();
    let ghost cur0 = cur@;
    proof {
        assert(v@.subrange(i as int, v@.len() as int) =~= Seq::<char>::empty());
        assert(split_spec(Seq::<char>::empty(), sep) =~= seq![Seq::<char>::empty()]);
        assert(cur@ + Seq::<char>::empty() =~= cur@);
        assert(prepend_first(cur@, split_spec(Seq::<char>::empty(), sep)) =~= seq![cur@]);
    }
    done.push(cur);
    proof {
        assert(done.deep_view() =~~= dv0.push(cur0));
        assert(dv0 + seq![cur0] =~= dv0.push(cur0));
        assert(split_spec(v@, sep) =~~= done.deep_view());
    }
    done
}

/// Join the trimmed, non-blank lines with single newlines: the normal form
/// under which two texts are compared for staleness.
pub open spec fn norm_join(ls: Seq<Seq<char>>) -> Seq<char>
    decreases ls.len(),
{
    if ls.len() == 0 {
        Seq::<char>::empty()
    } else {
        let front = norm_join(ls.subrange(0, ls.len() - 1));
        let t = trim_spec(ls[ls.len() - 1]);
        if t.len() == 0 {
            front
        } else if front.len() == 0 {
            t
        } else {
            front + seq!['\n'] + t
        }
    }
}

/// The whitespace-insensitive normal form of a text: every line trimmed,
/// blank lines dropped, remaining lines joined with single newlines.
pub open spec fn normalize_spec(s: Seq<char>) -> Seq<char> {
    norm_join(split_spec(s, '\n'))
}

/// Append the characters of `src` to `dst`.
pub fn append_chars(dst: &mut Vec<char>, src: &Vec<char>)
    ensures
        final(dst)@ == old(dst)@ + src@,
{
    let mut i: usize = 0;
    proof {
        assert(dst@ =~= old(dst)@ + src@.subrange(0, 0));
    }
    while i < src.len()
        invariant
            src.len() == src@.len(),
            i <= src@.len(),
            dst@ == old(dst)@ + src@.subrange(0, i as int),
        decreases src@.len() - i,
    {
        dst.push(src[i]);
        i = i + 1;
        proof {
            assert(dst@ =~= old(dst)@ + src@.subrange(0, i as int));
        }
    }
    proof {
        assert(src@.subrange(0, i as int) =~= src@);
    }
}

/// Reduce a text to its whitespace-insensitive normal form.
pub fn normalize_chars(v: &Vec<char>) -> (r: Vec<char>)
    ensures
        r@ == normalize_spec(v@),
{
    let lines = split_chars(v, '\n');
    let ghost lv = lines.deep_view();
    let mut out: Vec<char> = Vec::new();
    let mut i: usize = 0;
    proof {
        assert(lv.subrange(0, 0) =~= Seq::<Seq<char>>::empty());
    }
    while i < lines.len()
        invariant
            lines.len() == lv.len(),
            lv == lines.deep_view(),
            i <= lv.len(),
            out@ == norm_join(lv.subrange(0, i as int)),
        decreases lv.len() - i,
    {
        proof {
            assert(lines.deep_view()[i as int] == lines@[i as int].deep_view());
            assert(lines@[i as int].deep_view() =~= lines@[i as int]@);
        }
        let t = trim_chars(&lines[i]);
        proof {
            let pre = lv.subrange(0, i + 1);
            assert(pre.subrange(0, pre.len() - 1) =~= lv.subrange(0, i as int));
            assert(pre[pre.len() - 1] == lv[i as int]);
        }
        if t.len() > 0 {
            if out.len() > 0 {
                out.push('\n');
                append_chars(&mut out, &t);
                proof {
                    assert(out@ =~= norm_join(lv.subrange(0, i as int)) + seq!['\n'] + t@);
                }
            } else {
                append_chars(&mut out, &t);
                proof {
                    assert(out@ =~= t@);
                }
            }
        }
        i = i + 1;
    }
    proof {
        assert(lv.subrange(0, i as int) =~= lv);
    }
    out
}


proof fn lemma_norm_join_trim_eq(a: Seq<Seq<char>>, b: Seq<Seq<char>>)
    requires
        a.len() == b.len(),
        forall|i: int| 0 <= i < a.len() ==> trim_spec(#[trigger] a[i]) == trim_spec(b[i]),
    ensures
        norm_join(a) == norm_join(b),
    decreases a.len(),
{
    if a.len() > 0 {
        let af = a.subrange(0, a.len() - 1);
        let bf = b.subrange(0, b.len() - 1);
        assert(forall|i: int| 0 <= i < af.len() ==> af[i] == a[i] && bf[i] == b[i]);
        lemma_norm_join_trim_eq(af, bf);
        assert(trim_spec(a[a.len() - 1]) == trim_spec(b[b.len() - 1]));
    }
}

/// An edit that touches only whitespace leaves the staleness comparison
/// unmoved: two texts with the same lines up to leading and trailing
/// whitespace share one normal form, so neither reads as changed against
/// the other.
pub proof fn lemma_normalize_whitespace_insensitive(u: Seq<char>, w: Seq<char>)
    requires
        split_spec(u, '\n').len() == split_spec(w, '\n').len(),
        forall|i: int|
            0 <= i < split_spec(u, '\n').len() ==> trim_spec(
                #[trigger] split_spec(u, '\n')[i],
            ) == trim_spec(split_spec(w, '\n')[i]),
    ensures
        normalize_spec(u) == normalize_spec(w),
{
    lemma_norm_join_trim_eq(split_spec(u, '\n'), split_spec(w, '\n'));
}

} // verus!
