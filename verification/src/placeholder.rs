//! The placeholder processor's TypeScript cleanup passes: stripping `.js`
//! suffixes from the quoted specifiers of static imports, static exports and
//! dynamic imports, and from placeholder tokens trailed by a literal `.js`.
use vstd::prelude::*;

use crate::text::{is_space, is_space_char, matches_at, to_chars};

verus! {

pub open spec fn is_quote(c: char) -> bool {
    c == '"' || c == '\''
}

/// A word character, as an import-specifier boundary reads them.
pub open spec fn is_word(c: char) -> bool {
    ('a' <= c && c <= 'z') || ('A' <= c && c <= 'Z') || ('0' <= c && c <= '9') || c == '_'
}

/// A character a placeholder token's name may hold.
pub open spec fn is_token_char(c: char) -> bool {
    ('A' <= c && c <= 'Z') || c == '_'
}

/// The first quote character at or after `from`, or the length when none.
pub open spec fn quote_pos(s: Seq<char>, from: int) -> int
    decreases s.len() - from
        when from <= s.len()
{
    if from >= s.len() {
        s.len() as int
    } else if is_quote(s[from]) {
        from
    } else {
        quote_pos(s, from + 1)
    }
}

/// The first non-whitespace character at or after `from`, or the length.
pub open spec fn ws_end(s: Seq<char>, from: int) -> int
    decreases s.len() - from
        when from <= s.len()
{
    if from >= s.len() {
        s.len() as int
    } else if !is_space(s[from]) {
        from
    } else {
        ws_end(s, from + 1)
    }
}

/// The end of the run of token-name characters starting at `from`.
pub open spec fn token_run_end(s: Seq<char>, from: int) -> int
    decreases s.len() - from
        when from <= s.len()
{
    if from >= s.len() {
        s.len() as int
    } else if !is_token_char(s[from]) {
        from
    } else {
        token_run_end(s, from + 1)
    }
}

pub proof fn lemma_quote_pos_bounds(s: Seq<char>, from: int)
    requires
        0 <= from <= s.len(),
    ensures
        from <= quote_pos(s, from) <= s.len(),
    decreases s.len() - from,
{
    if from < s.len() && !is_quote(s[from]) {
        lemma_quote_pos_bounds(s, from + 1);
    }
}

pub proof fn lemma_ws_end_bounds(s: Seq<char>, from: int)
    requires
        0 <= from <= s.len(),
    ensures
        from <= ws_end(s, from) <= s.len(),
    decreases s.len() - from,
{
    if from < s.len() && is_space(s[from]) {
        lemma_ws_end_bounds(s, from + 1);
    }
}

proof fn lemma_quote_pos_pins(s: Seq<char>, from: int, q: int)
    requires
        0 <= from <= q <= s.len(),
        forall|j: int| from <= j < q ==> !is_quote(s[j]),
        q == s.len() || is_quote(s[q]),
    ensures
        quote_pos(s, from) == q,
    decreases q - from,
{
    if from < q {
        lemma_quote_pos_pins(s, from + 1, q);
    }
}

proof fn lemma_ws_end_pins(s: Seq<char>, from: int, q: int)
    requires
        0 <= from <= q <= s.len(),
        forall|j: int| from <= j < q ==> is_space(s[j]),
        q == s.len() || !is_space(s[q]),
    ensures
        ws_end(s, from) == q,
    decreases q - from,
{
    if from < q {
        lemma_ws_end_pins(s, from + 1, q);
    }
}

proof fn lemma_token_run_pins(s: Seq<char>, from: int, q: int)
    requires
        0 <= from <= q <= s.len(),
        forall|j: int| from <= j < q ==> is_token_char(s[j]),
        q == s.len() || !is_token_char(s[q]),
    ensures
        token_run_end(s, from) == q,
    decreases q - from,
{
    if from < q {
        lemma_token_run_pins(s, from + 1, q);
    }
}

fn is_quote_char(c: char) -> (r: bool)
    ensures
        r == is_quote(c),
{
    c == '"' || c == '\''
}

fn is_word_char(c: char) -> (r: bool)
    ensures
        r == is_word(c),
{
    ('a' <= c && c <= 'z') || ('A' <= c && c <= 'Z') || ('0' <= c && c <= '9') || c == '_'
}

fn is_token_char_exec(c: char) -> (r: bool)
    ensures
        r == is_token_char(c),
{
    ('A' <= c && c <= 'Z') || c == '_'
}

/// Find the first quote at or after `from` in the suffix beginning at `base`.
fn find_quote_rel(v: &Vec<char>, base: usize, from: usize) -> (r: usize)
    requires
        base <= v@.len(),
        base <= from <= v@.len(),
    ensures
        base + r - base == r,
        r - base == quote_pos(v@.subrange(base as int, v@.len() as int), from - base),
        from <= r <= v@.len(),
        r < v@.len() ==> is_quote(v@[r as int]),
        forall|j: int| from <= j < r ==> !is_quote(v@[j]),
{
    let mut j: usize = from;
    while j < v.len() && !is_quote_char(v[j])
        invariant
            v.len() == v@.len(),
            from <= j <= v@.len(),
            forall|m: int| from <= m < j ==> !is_quote(v@[m]),
        decreases v@.len() - j,
    {
        j = j + 1;
    }
    proof {
        let suffix = v@.subrange(base as int, v@.len() as int);
        assert forall|m: int| from - base <= m < j - base implies !is_quote(suffix[m]) by {
            assert(suffix[m] == v@[base + m]);
        }
        if j < v@.len() {
            assert(suffix[j - base] == v@[j as int]);
        }
        lemma_quote_pos_pins(suffix, from - base, j - base);
    }
    j
}

/// Find the first non-whitespace at or after `from`, relative to `base`.
fn find_ws_end_rel(v: &Vec<char>, base: usize, from: usize) -> (r: usize)
    requires
        base <= v@.len(),
        base <= from <= v@.len(),
    ensures
        r - base == ws_end(v@.subrange(base as int, v@.len() as int), from - base),
        from <= r <= v@.len(),
        r < v@.len() ==> !is_space(v@[r as int]),
{
    let mut j: usize = from;
    while j < v.len() && is_space_char(v[j])
        invariant
            v.len() == v@.len(),
            from <= j <= v@.len(),
            forall|m: int| from <= m < j ==> is_space(v@[m]),
        decreases v@.len() - j,
    {
        j = j + 1;
    }
    proof {
        let suffix = v@.subrange(base as int, v@.len() as int);
        assert forall|m: int| from - base <= m < j - base implies is_space(suffix[m]) by {
            assert(suffix[m] == v@[base + m]);
        }
        if j < v@.len() {
            assert(suffix[j - base] == v@[j as int]);
        }
        lemma_ws_end_pins(suffix, from - base, j - base);
    }
    j
}

/// Whether a static `import`/`export` specifier match begins at the head of
/// the text: the keyword, at least one whitespace character, anything up to
/// the first quote, then a quoted run of at least one character ending in
/// `.js`.
pub open spec fn static_match_at(s: Seq<char>, kw: Seq<char>) -> bool {
    let k = kw.len() as int;
    &&& s.len() > k
    &&& s.subrange(0, k) == kw
    &&& is_space(s[k])
    &&& quote_pos(s, k + 1) < s.len()
    &&& {
        let q1 = quote_pos(s, k + 1);
        let q2 = quote_pos(s, q1 + 1);
        &&& q2 < s.len()
        &&& q2 - q1 - 1 >= 4
        &&& s.subrange(q2 - 3, q2) == ".js"@
    }
}

/// The closing-quote position of a static match at the head.
pub open spec fn static_match_close(s: Seq<char>, kw: Seq<char>) -> int {
    quote_pos(s, quote_pos(s, kw.len() + 1 as int) + 1)
}

/// Try a static-specifier match at position `i`; a hit names the absolute
/// closing-quote position.
fn try_static_match(v: &Vec<char>, kw: &Vec<char>, i: usize) -> (r: Option<usize>)
    requires
        kw@.len() > 0,
        i <= v@.len(),
    ensures
        match r {
            Option::Some(q2) => {
                &&& static_match_at(v@.subrange(i as int, v@.len() as int), kw@)
                &&& i + 4 <= q2 < v@.len()
                &&& q2 - i == static_match_close(v@.subrange(i as int, v@.len() as int), kw@)
            },
            Option::None => !static_match_at(v@.subrange(i as int, v@.len() as int), kw@),
        },
{
    let ghost suffix = v@.subrange(i as int, v@.len() as int);
    if !matches_at(v, kw, i) {
        proof {
            if static_match_at(suffix, kw@) {
                assert(suffix.subrange(0, kw@.len() as int) =~= v@.subrange(
                    i as int,
                    i + kw@.len() as int,
                ));
            }
        }
        return None;
    }
    proof {
        assert(suffix.subrange(0, kw@.len() as int) =~= v@.subrange(
            i as int,
            i + kw@.len() as int,
        ));
    }
    proof {
        assert(i + kw@.len() <= v.len());
    }
    if i + kw.len() >= v.len() {
        return None;
    }
    if !is_space_char(v[i + kw.len()]) {
        proof {
            assert(suffix[kw@.len() as int] == v@[i + kw@.len()]);
        }
        return None;
    }
    proof {
        assert(suffix[kw@.len() as int] == v@[i + kw@.len()]);
    }
    let q1 = find_quote_rel(v, i, i + kw.len() + 1);
    if q1 >= v.len() {
        return None;
    }
    let q2 = find_quote_rel(v, i, q1 + 1);
    if q2 >= v.len() {
        return None;
    }
    if q2 - q1 < 5 {
        return None;
    }
    let dot_js = to_chars(".js");
    proof {
        reveal_strlit(".js");
    }
    if matches_at(v, &dot_js, q2 - 3) {
        proof {
            assert(suffix.subrange(q2 - 3 - i, q2 - i) =~= v@.subrange(q2 - 3, q2 as int));
            assert(static_match_at(suffix, kw@));
        }
        Some(q2)
    } else {
        proof {
            assert(suffix.subrange(q2 - 3 - i, q2 - i) =~= v@.subrange(q2 - 3, q2 as int));
        }
        None
    }
}

/// One cleanup pass for a static keyword: every quoted specifier of a
/// `kw …"…"` form loses its trailing `.js`, scanning left to right.
pub open spec fn strip_static_spec(s: Seq<char>, kw: Seq<char>) -> Seq<char>
    decreases s.len()
        when kw.len() > 0
        via strip_static_spec_decreases
{
    if s.len() == 0 {
        s
    } else if static_match_at(s, kw) {
        let q2 = static_match_close(s, kw);
        s.subrange(0, q2 - 3) + seq![s[q2]] + strip_static_spec(
            s.subrange(q2 + 1, s.len() as int),
            kw,
        )
    } else {
        seq![s[0]] + strip_static_spec(s.subrange(1, s.len() as int), kw)
    }
}

#[via_fn]
proof fn strip_static_spec_decreases(s: Seq<char>, kw: Seq<char>) {
    if s.len() > 0 && static_match_at(s, kw) {
        lemma_quote_pos_bounds(s, kw.len() + 1 as int);
        lemma_quote_pos_bounds(s, quote_pos(s, kw.len() + 1 as int) + 1);
    }
}

/// Run one static-keyword cleanup pass over the text.
pub fn strip_static(v: &Vec<char>, kw: &Vec<char>) -> (r: Vec<char>)
    requires
        kw@.len() > 0,
    ensures
        r@ == strip_static_spec(v@, kw@),
{
    let mut r: Vec<char> = Vec::new();
    let mut i: usize = 0;
    proof {
        assert(v@.subrange(0, v@.len() as int) =~= v@);
        assert(Seq::<char>::empty() + strip_static_spec(v@, kw@) =~= strip_static_spec(v@, kw@));
    }
    while i < v.len()
        invariant
            v.len() == v@.len(),
            kw.len() == kw@.len(),
            kw@.len() > 0,
            i <= v@.len(),
            strip_static_spec(v@, kw@) == r@ + strip_static_spec(
                v@.subrange(i as int, v@.len() as int),
                kw@,
            ),
        decreases v@.len() - i,
    {
        let ghost suffix = v@.subrange(i as int, v@.len() as int);
        match try_static_match(v, kw, i) {
            Option::Some(q2) => {
                let ghost sq2r = q2 - i;
                proof {
                    assert(suffix.subrange(0, sq2r - 3) =~= v@.subrange(i as int, q2 - 3));
                    assert(suffix[sq2r] == v@[q2 as int]);
                    assert(suffix.subrange(sq2r + 1, suffix.len() as int) =~= v@.subrange(
                        q2 + 1,
                        v@.len() as int,
                    ));
                }
                let ghost r0 = r@;
                let mut m: usize = i;
                while m < q2 - 3
                    invariant
                        v.len() == v@.len(),
                        i <= m,
                        m <= q2 - 3,
                        i + 4 <= q2 < v@.len(),
                        r@ == r0 + v@.subrange(i as int, m as int),
                    decreases q2 - 3 - m,
                {
                    r.push(v[m]);
                    m = m + 1;
                    proof {
                        assert(r@ =~= r0 + v@.subrange(i as int, m as int));
                    }
                }
                r.push(v[q2]);
                proof {
                    assert(r@ =~= r0 + (v@.subrange(i as int, q2 - 3) + seq![v@[q2 as int]]));
                    assert(r0 + (v@.subrange(i as int, q2 - 3) + seq![v@[q2 as int]])
                        + strip_static_spec(v@.subrange(q2 + 1, v@.len() as int), kw@) =~= r0 + ((
                    v@.subrange(i as int, q2 - 3) + seq![v@[q2 as int]]) + strip_static_spec(
                        v@.subrange(q2 + 1, v@.len() as int),
                        kw@,
                    )));
                }
                i = q2 + 1;
            },
            Option::None => {
                proof {
                    assert(seq![suffix[0]] =~= seq![v@[i as int]]);
                    assert(suffix.subrange(1, suffix.len() as int) =~= v@.subrange(
                        i + 1,
                        v@.len() as int,
                    ));
                    assert(r@ + (seq![v@[i as int]] + strip_static_spec(
                        v@.subrange(i + 1, v@.len() as int),
                        kw@,
                    )) =~= r@.push(v@[i as int]) + strip_static_spec(
                        v@.subrange(i + 1, v@.len() as int),
                        kw@,
                    ));
                }
                r.push(v[i]);
                i = i + 1;
            },
        }
    }
    proof {
        assert(v@.subrange(i as int, v@.len() as int) =~= Seq::<char>::empty());
        assert(strip_static_spec(Seq::<char>::empty(), kw@) =~= Seq::<char>::empty());
        assert(r@ =~= r@ + Seq::<char>::empty());
    }
    r
}

/// Whether a dynamic-import specifier match begins at the head: `import`,
/// optional whitespace, an opening parenthesis, optional whitespace, then a
/// quoted run of at least one character ending in `.js`, a closing quote,
/// optional whitespace, and the closing parenthesis.
pub open spec fn dynamic_match_at(s: Seq<char>) -> bool {
    &&& s.len() > 6
    &&& s.subrange(0, 6) == "import"@
    &&& {
        let p = ws_end(s, 6);
        &&& p < s.len()
        &&& s[p] == '('
        &&& {
            let q1 = ws_end(s, p + 1);
            &&& q1 < s.len()
            &&& is_quote(s[q1])
            &&& {
                let q2 = quote_pos(s, q1 + 1);
                &&& q2 < s.len()
                &&& q2 - q1 - 1 >= 4
                &&& s.subrange(q2 - 3, q2) == ".js"@
                &&& {
                    let t = ws_end(s, q2 + 1);
                    &&& t < s.len()
                    &&& s[t] == ')'
                }
            }
        }
    }
}

/// The closing-quote and closing-parenthesis positions of a dynamic match.
pub open spec fn dynamic_match_close(s: Seq<char>) -> (int, int) {
    let p = ws_end(s, 6);
    let q1 = ws_end(s, p + 1);
    let q2 = quote_pos(s, q1 + 1);
    let t = ws_end(s, q2 + 1);
    (q2, t)
}

/// Try a dynamic-import match at position `i`; a hit names the absolute
/// closing-quote and closing-parenthesis positions.
fn try_dynamic_match(v: &Vec<char>, i: usize) -> (r: Option<(usize, usize)>)
    requires
        i <= v@.len(),
    ensures
        match r {
            Option::Some(qt) => {
                &&& dynamic_match_at(v@.subrange(i as int, v@.len() as int))
                &&& i + 4 <= qt.0 < qt.1 < v@.len()
                &&& (qt.0 - i, qt.1 - i) == dynamic_match_close(
                    v@.subrange(i as int, v@.len() as int),
                )
            },
            Option::None => !dynamic_match_at(v@.subrange(i as int, v@.len() as int)),
        },
{
    let ghost suffix = v@.subrange(i as int, v@.len() as int);
    let kw = to_chars("import");
    proof {
        reveal_strlit("import");
    }
    if !matches_at(v, &kw, i) {
        proof {
            if dynamic_match_at(suffix) {
                assert(suffix.subrange(0, 6) =~= v@.subrange(i as int, i + 6));
            }
        }
        return None;
    }
    proof {
        assert(i + 6 <= v.len());
    }
    if i + 6 >= v.len() {
        return None;
    }
    proof {
        assert(suffix.subrange(0, 6) =~= v@.subrange(i as int, i + 6));
    }
    let p = find_ws_end_rel(v, i, i + 6);
    if p >= v.len() {
        return None;
    }
    if v[p] != '(' {
        return None;
    }
    let q1 = find_ws_end_rel(v, i, p + 1);
    if q1 >= v.len() {
        return None;
    }
    if !is_quote_char(v[q1]) {
        return None;
    }
    let q2 = find_quote_rel(v, i, q1 + 1);
    if q2 >= v.len() {
        return None;
    }
    if q2 - q1 < 5 {
        return None;
    }
    let dot_js = to_chars(".js");
    proof {
        reveal_strlit(".js");
    }
    if !matches_at(v, &dot_js, q2 - 3) {
        proof {
            assert(suffix.subrange(q2 - 3 - i, q2 - i) =~= v@.subrange(q2 - 3, q2 as int));
        }
        return None;
    }
    proof {
        assert(suffix.subrange(q2 - 3 - i, q2 - i) =~= v@.subrange(q2 - 3, q2 as int));
    }
    let t = find_ws_end_rel(v, i, q2 + 1);
    if t >= v.len() {
        return None;
    }
    if v[t] != ')' {
        return None;
    }
    proof {
        assert(dynamic_match_at(suffix));
    }
    Some((q2, t))
}

/// One cleanup pass for dynamic imports: every quoted specifier of an
/// `import(…)` call loses its trailing `.js`, scanning left to right.
pub open spec fn strip_dynamic_spec(s: Seq<char>) -> Seq<char>
    decreases s.len(),
        via strip_dynamic_spec_decreases
{
    if s.len() == 0 {
        s
    } else if dynamic_match_at(s) {
        let qt = dynamic_match_close(s);
        s.subrange(0, qt.0 - 3) + s.subrange(qt.0, qt.1 + 1) + strip_dynamic_spec(
            s.subrange(qt.1 + 1, s.len() as int),
        )
    } else {
        seq![s[0]] + strip_dynamic_spec(s.subrange(1, s.len() as int))
    }
}

#[via_fn]
proof fn strip_dynamic_spec_decreases(s: Seq<char>) {
    if s.len() > 0 && dynamic_match_at(s) {
        lemma_ws_end_bounds(s, 6);
        let p = ws_end(s, 6);
        lemma_ws_end_bounds(s, p + 1);
        let q1 = ws_end(s, p + 1);
        lemma_quote_pos_bounds(s, q1 + 1);
        let q2 = quote_pos(s, q1 + 1);
        lemma_ws_end_bounds(s, q2 + 1);
    }
}

/// Run the dynamic-import cleanup pass over the text.
pub fn strip_dynamic(v: &Vec<char>) -> (r: Vec<char>)
    ensures
        r@ == strip_dynamic_spec(v@),
{
    let mut r: Vec<char> = Vec::new();
    let mut i: usize = 0;
    proof {
        assert(v@.subrange(0, v@.len() as int) =~= v@);
        assert(Seq::<char>::empty() + strip_dynamic_spec(v@) =~= strip_dynamic_spec(v@));
    }
    while i < v.len()
        invariant
            v.len() == v@.len(),
            i <= v@.len(),
            strip_dynamic_spec(v@) == r@ + strip_dynamic_spec(
                v@.subrange(i as int, v@.len() as int),
            ),
        decreases v@.len() - i,
    {
        let ghost suffix = v@.subrange(i as int, v@.len() as int);
        match try_dynamic_match(v, i) {
            Option::Some((q2, t)) => {
                proof {
                    assert(suffix.subrange(0, q2 - i - 3) =~= v@.subrange(i as int, q2 - 3));
                    assert(suffix.subrange(q2 - i, t - i + 1) =~= v@.subrange(
                        q2 as int,
                        t + 1,
                    ));
                    assert(suffix.subrange(t - i + 1, suffix.len() as int) =~= v@.subrange(
                        t + 1,
                        v@.len() as int,
                    ));
                }
                let ghost r0 = r@;
                let mut m: usize = i;
                while m < q2 - 3
                    invariant
                        v.len() == v@.len(),
                        i <= m,
                        m <= q2 - 3,
                        i + 4 <= q2 < v@.len(),
                        r@ == r0 + v@.subrange(i as int, m as int),
                    decreases q2 - 3 - m,
                {
                    r.push(v[m]);
                    m = m + 1;
                    proof {
                        assert(r@ =~= r0 + v@.subrange(i as int, m as int));
                    }
                }
                let ghost r1 = r@;
                let mut m2: usize = q2;
                while m2 < t + 1
                    invariant
                        v.len() == v@.len(),
                        q2 <= m2,
                        m2 <= t + 1,
                        q2 < t + 1 <= v@.len(),
                        r@ == r1 + v@.subrange(q2 as int, m2 as int),
                    decreases t + 1 - m2,
                {
                    r.push(v[m2]);
                    m2 = m2 + 1;
                    proof {
                        assert(r@ =~= r1 + v@.subrange(q2 as int, m2 as int));
                    }
                }
                proof {
                    assert(r@ =~= r0 + (v@.subrange(i as int, q2 - 3) + v@.subrange(
                        q2 as int,
                        t + 1,
                    )));
                    assert(r0 + (v@.subrange(i as int, q2 - 3) + v@.subrange(q2 as int, t + 1))
                        + strip_dynamic_spec(v@.subrange(t + 1, v@.len() as int)) =~= r0 + ((
                    v@.subrange(i as int, q2 - 3) + v@.subrange(q2 as int, t + 1))
                        + strip_dynamic_spec(v@.subrange(t + 1, v@.len() as int))));
                }
                i = t + 1;
            },
            Option::None => {
                proof {
                    assert(seq![suffix[0]] =~= seq![v@[i as int]]);
                    assert(suffix.subrange(1, suffix.len() as int) =~= v@.subrange(
                        i + 1,
                        v@.len() as int,
                    ));
                    assert(r@ + (seq![v@[i as int]] + strip_dynamic_spec(
                        v@.subrange(i + 1, v@.len() as int),
                    )) =~= r@.push(v@[i as int]) + strip_dynamic_spec(
                        v@.subrange(i + 1, v@.len() as int),
                    ));
                }
                r.push(v[i]);
                i = i + 1;
            },
        }
    }
    proof {
        assert(v@.subrange(i as int, v@.len() as int) =~= Seq::<char>::empty());
        assert(strip_dynamic_spec(Seq::<char>::empty()) =~= Seq::<char>::empty());
        assert(r@ =~= r@ + Seq::<char>::empty());
    }
    r
}

/// Whether a placeholder token trailed by `.js` begins at the head: a
/// dollar, a run of capitals and underscores, a dollar, then `.js` ending at
/// a word boundary.
pub open spec fn token_match_at(s: Seq<char>) -> bool {
    &&& s.len() > 0
    &&& s[0] == '$'
    &&& {
        let e = token_run_end(s, 1);
        &&& e > 1
        &&& e + 4 <= s.len()
        &&& s[e] == '$'
        &&& s.subrange(e + 1, e + 4) == ".js"@
        &&& (e + 4 == s.len() || !is_word(s[e + 4]))
    }
}

/// The closing-dollar position of a token match at the head.
pub open spec fn token_match_close(s: Seq<char>) -> int {
    token_run_end(s, 1)
}

/// Try a token match at position `i`; a hit names the absolute position of
/// the token's closing dollar.
fn try_token_match(v: &Vec<char>, i: usize) -> (r: Option<usize>)
    requires
        i <= v@.len(),
    ensures
        match r {
            Option::Some(e) => {
                &&& token_match_at(v@.subrange(i as int, v@.len() as int))
                &&& i < e && e + 4 <= v@.len()
                &&& e - i == token_match_close(v@.subrange(i as int, v@.len() as int))
            },
            Option::None => !token_match_at(v@.subrange(i as int, v@.len() as int)),
        },
{
    let ghost suffix = v@.subrange(i as int, v@.len() as int);
    if i >= v.len() || v[i] != '$' {
        return None;
    }
    let mut e: usize = i + 1;
    while e < v.len() && is_token_char_exec(v[e])
        invariant
            v.len() == v@.len(),
            i + 1 <= e <= v@.len(),
            forall|m: int| i + 1 <= m < e ==> is_token_char(v@[m]),
        decreases v@.len() - e,
    {
        e = e + 1;
    }
    proof {
        assert forall|m: int| 1 <= m < e - i implies is_token_char(suffix[m]) by {
            assert(suffix[m] == v@[i + m]);
        }
        if e < v@.len() {
            assert(suffix[e - i] == v@[e as int]);
        }
        lemma_token_run_pins(suffix, 1, e - i);
    }
    if e == i + 1 {
        return None;
    }
    if v.len() - e < 4 {
        return None;
    }
    if v[e] != '$' {
        return None;
    }
    let dot_js = to_chars(".js");
    proof {
        reveal_strlit(".js");
    }
    if !matches_at(v, &dot_js, e + 1) {
        proof {
            assert(suffix.subrange(e - i + 1, e - i + 4) =~= v@.subrange(e + 1, e + 4));
        }
        return None;
    }
    proof {
        assert(suffix.subrange(e - i + 1, e - i + 4) =~= v@.subrange(e + 1, e + 4));
    }
    if e + 4 < v.len() && is_word_char(v[e + 4]) {
        proof {
            assert(suffix[e - i + 4] == v@[e + 4]);
        }
        return None;
    }
    proof {
        if e + 4 < v@.len() {
            assert(suffix[e - i + 4] == v@[e + 4]);
        }
        assert(token_match_at(suffix));
    }
    Some(e)
}

/// One cleanup pass for placeholder tokens: a token immediately trailed by a
/// literal `.js` loses that suffix, the token itself staying in place.
pub open spec fn strip_token_spec(s: Seq<char>) -> Seq<char>
    decreases s.len(),
{
    if s.len() == 0 {
        s
    } else if token_match_at(s) {
        let e = token_match_close(s);
        s.subrange(0, e + 1) + strip_token_spec(s.subrange(e + 4, s.len() as int))
    } else {
        seq![s[0]] + strip_token_spec(s.subrange(1, s.len() as int))
    }
}

/// Run the placeholder-token cleanup pass over the text.
pub fn strip_token(v: &Vec<char>) -> (r: Vec<char>)
    ensures
        r@ == strip_token_spec(v@),
{
    let mut r: Vec<char> = Vec::new();
    let mut i: usize = 0;
    proof {
        assert(v@.subrange(0, v@.len() as int) =~= v@);
        assert(Seq::<char>::empty() + strip_token_spec(v@) =~= strip_token_spec(v@));
    }
    while i < v.len()
        invariant
            v.len() == v@.len(),
            i <= v@.len(),
            strip_token_spec(v@) == r@ + strip_token_spec(v@.subrange(i as int, v@.len() as int)),
        decreases v@.len() - i,
    {
        let ghost suffix = v@.subrange(i as int, v@.len() as int);
        match try_token_match(v, i) {
            Option::Some(e) => {
                proof {
                    assert(suffix.subrange(0, e - i + 1) =~= v@.subrange(i as int, e + 1));
                    assert(suffix.subrange(e - i + 4, suffix.len() as int) =~= v@.subrange(
                        e + 4,
                        v@.len() as int,
                    ));
                }
                let ghost r0 = r@;
                let mut m: usize = i;
                while m < e + 1
                    invariant
                        v.len() == v@.len(),
                        i <= m,
                        m <= e + 1,
                        e + 1 <= v@.len(),
                        r@ == r0 + v@.subrange(i as int, m as int),
                    decreases e + 1 - m,
                {
                    r.push(v[m]);
                    m = m + 1;
                    proof {
                        assert(r@ =~= r0 + v@.subrange(i as int, m as int));
                    }
                }
                proof {
                    assert(r0 + v@.subrange(i as int, e + 1) + strip_token_spec(
                        v@.subrange(e + 4, v@.len() as int),
                    ) =~= r0 + (v@.subrange(i as int, e + 1) + strip_token_spec(
                        v@.subrange(e + 4, v@.len() as int),
                    )));
                }
                i = e + 4;
            },
            Option::None => {
                proof {
                    assert(seq![suffix[0]] =~= seq![v@[i as int]]);
                    assert(suffix.subrange(1, suffix.len() as int) =~= v@.subrange(
                        i + 1,
                        v@.len() as int,
                    ));
                    assert(r@ + (seq![v@[i as int]] + strip_token_spec(
                        v@.subrange(i + 1, v@.len() as int),
                    )) =~= r@.push(v@[i as int]) + strip_token_spec(
                        v@.subrange(i + 1, v@.len() as int),
                    ));
                }
                r.push(v[i]);
                i = i + 1;
            },
        }
    }
    proof {
        assert(v@.subrange(i as int, v@.len() as int) =~= Seq::<char>::empty());
        assert(strip_token_spec(Seq::<char>::empty()) =~= Seq::<char>::empty());
        assert(r@ =~= r@ + Seq::<char>::empty());
    }
    r
}

/// The whole TypeScript cleanup: static imports, static exports, dynamic
/// imports, then placeholder tokens, in that order.
pub open spec fn strip_js_spec(s: Seq<char>) -> Seq<char> {
    strip_token_spec(
        strip_dynamic_spec(strip_static_spec(strip_static_spec(s, "import"@), "export"@)),
    )
}

/// Strip `.js` specifier suffixes across all four specifier forms.
pub fn strip_js_extensions(v: &Vec<char>) -> (r: Vec<char>)
    ensures
        r@ == strip_js_spec(v@),
{
    let kw_import = to_chars("import");
    let kw_export = to_chars("export");
    proof {
        reveal_strlit("import");
        reveal_strlit("export");
    }
    let s1 = strip_static(v, &kw_import);
    let s2 = strip_static(&s1, &kw_export);
    let s3 = strip_dynamic(&s2);
    strip_token(&s3)
}

} // verus!
