//! Project configuration and the path-mapping resolver: alias tables,
//! registry settings, and the parse-merge-resolve pipeline for inherited
//! path-mapping files.
use vstd::prelude::*;

use crate::text::{
    chars_eq, chars_to_string, split_chars, split_spec, str_eq, strip_suffix_all,
    strip_suffix_all_spec, subrange_chars, to_chars,
};

verus! {

/// A registry as configured: either a bare URL template or a template with
/// query parameters and headers.
#[derive(Debug, Clone)]
pub enum RegistryConfig {
    String(String),
    Object {
        url: String,
        params: Option<Vec<(String, String)>>,
        headers: Option<Vec<(String, String)>>,
    },
}

/// Tailwind-related settings carried through to generated files.
#[derive(Debug, Clone)]
pub struct TailwindConfig {
    pub css: String,
    pub base_color: String,
    pub config: Option<String>,
}

/// The symbolic import roots a project declares.
#[derive(Debug, Clone)]
pub struct AliasesConfig {
    pub components: String,
    pub utils: String,
    pub ui: Option<String>,
    pub hooks: Option<String>,
    pub lib: Option<String>,
}

/// Whether TypeScript support is on, and where its configuration lives.
#[derive(Debug, Clone)]
pub enum TypeScriptConfig {
    Boolean(bool),
    Object { config: String },
}

/// The compiler options a path-mapping file carries, as far as resolution
/// reads them: the alias table and the base directory.
#[derive(Debug, Clone)]
pub struct CompilerOptions {
    pub paths: Option<Vec<(String, Vec<String>)>>,
    pub base_url: Option<String>,
}

/// A parsed path-mapping file: its inheritance link and compiler options.
#[derive(Debug, Clone)]
pub struct TsConfig {
    pub extends: Option<String>,
    pub compiler_options: Option<CompilerOptions>,
}

/// An alias table resolved to concrete filesystem paths.
#[derive(Debug, Clone)]
pub struct ResolvedPaths {
    pub paths: Vec<(String, String)>,
    pub base_url: String,
}

/// The whole tool configuration.
#[derive(Debug, Clone)]
pub struct Config {
    pub schema: Option<String>,
    pub style: Option<String>,
    pub tailwind: TailwindConfig,
    pub aliases: AliasesConfig,
    pub registries: Vec<(String, RegistryConfig)>,
    pub typescript: Option<TypeScriptConfig>,
}

/// Look a key up in an association list: the first entry with the key wins.
pub open spec fn kv_lookup<V>(s: Seq<(Seq<char>, V)>, k: Seq<char>) -> Option<V>
    decreases s.len(),
{
    if s.len() == 0 {
        Option::None
    } else if s[0].0 == k {
        Option::Some(s[0].1)
    } else {
        kv_lookup(s.subrange(1, s.len() as int), k)
    }
}

pub open spec fn kv_has<V>(s: Seq<(Seq<char>, V)>, k: Seq<char>) -> bool {
    kv_lookup(s, k) is Some
}

pub proof fn lemma_kv_lookup_exists<V>(s: Seq<(Seq<char>, V)>, k: Seq<char>)
    ensures
        kv_has(s, k) <==> exists|i: int| 0 <= i < s.len() && (#[trigger] s[i]).0 == k,
    decreases s.len(),
{
    if s.len() > 0 {
        let rest = s.subrange(1, s.len() as int);
        lemma_kv_lookup_exists(rest, k);
        if s[0].0 != k {
            if exists|i: int| 0 <= i < s.len() && (#[trigger] s[i]).0 == k {
                let i = choose|i: int| 0 <= i < s.len() && (#[trigger] s[i]).0 == k;
                assert(rest[i - 1] == s[i]);
            }
        }
    }
}

/// The entries of `p` whose keys are absent from `c`, in order.
pub open spec fn absent_entries<V>(c: Seq<(Seq<char>, V)>, p: Seq<(Seq<char>, V)>) -> Seq<
    (Seq<char>, V),
>
    decreases p.len(),
{
    if p.len() == 0 {
        Seq::empty()
    } else {
        let rest = absent_entries(c, p.subrange(1, p.len() as int));
        if kv_has(c, p[0].0) {
            rest
        } else {
            seq![p[0]] + rest
        }
    }
}

/// Merging an inherited alias table into a child's: the child's entries
/// stand first and untouched; a parent entry is taken only when the child
/// does not bind its key.
pub open spec fn merge_entries<V>(c: Seq<(Seq<char>, V)>, p: Seq<(Seq<char>, V)>) -> Seq<
    (Seq<char>, V),
> {
    c + absent_entries(c, p)
}

proof fn lemma_kv_lookup_concat<V>(a: Seq<(Seq<char>, V)>, b: Seq<(Seq<char>, V)>, k: Seq<char>)
    ensures
        kv_lookup(a + b, k) == if kv_has(a, k) {
            kv_lookup(a, k)
        } else {
            kv_lookup(b, k)
        },
    decreases a.len(),
{
    if a.len() == 0 {
        assert(a + b =~= b);
    } else {
        let rest = a.subrange(1, a.len() as int);
        lemma_kv_lookup_concat(rest, b, k);
        assert((a + b).subrange(1, (a + b).len() as int) =~= rest + b);
        assert((a + b)[0] == a[0]);
    }
}

proof fn lemma_absent_lookup<V>(c: Seq<(Seq<char>, V)>, p: Seq<(Seq<char>, V)>, k: Seq<char>)
    ensures
        kv_lookup(absent_entries(c, p), k) == if kv_has(c, k) {
            Option::<V>::None
        } else {
            kv_lookup(p, k)
        },
    decreases p.len(),
{
    if p.len() == 0 {
    } else {
        let rest = p.subrange(1, p.len() as int);
        lemma_absent_lookup(c, rest, k);
        if kv_has(c, p[0].0) {
        } else {
            let tail = absent_entries(c, rest);
            assert((seq![p[0]] + tail).subrange(1, (seq![p[0]] + tail).len() as int) =~= tail);
            assert((seq![p[0]] + tail)[0] == p[0]);
        }
    }
}

/// Child precedence: in a merged table, a key bound by the child keeps the
/// child's value, and a key the child leaves free takes the parent's.
pub proof fn lemma_merge_lookup<V>(c: Seq<(Seq<char>, V)>, p: Seq<(Seq<char>, V)>, k: Seq<char>)
    ensures
        kv_lookup(merge_entries(c, p), k) == if kv_has(c, k) {
            kv_lookup(c, k)
        } else {
            kv_lookup(p, k)
        },
{
    lemma_kv_lookup_concat(c, absent_entries(c, p), k);
    lemma_absent_lookup(c, p, k);
}

proof fn lemma_absent_self<V>(c: Seq<(Seq<char>, V)>, p: Seq<(Seq<char>, V)>)
    requires
        forall|i: int| 0 <= i < p.len() ==> kv_has(c, (#[trigger] p[i]).0),
    ensures
        absent_entries(c, p) == Seq::<(Seq<char>, V)>::empty(),
    decreases p.len(),
{
    if p.len() > 0 {
        let rest = p.subrange(1, p.len() as int);
        assert(forall|i: int| 0 <= i < rest.len() ==> rest[i] == p[i + 1]);
        lemma_absent_self(c, rest);
    }
}

/// Merging a table with itself changes nothing: the merge is idempotent.
pub proof fn lemma_merge_idempotent<V>(c: Seq<(Seq<char>, V)>)
    ensures
        merge_entries(c, c) == c,
{
    assert forall|i: int| 0 <= i < c.len() implies kv_has(c, (#[trigger] c[i]).0) by {
        lemma_kv_lookup_exists(c, c[i].0);
    }
    lemma_absent_self(c, c);
    assert(c + Seq::<(Seq<char>, V)>::empty() =~= c);
    assert(merge_entries(c, c) =~= c);
}

/// The view of an optional string.
pub open spec fn opt_view(o: Option<String>) -> Option<Seq<char>> {
    match o {
        Option::Some(s) => Option::Some(s@),
        Option::None => Option::None,
    }
}

/// The view of an alias table as declared: each alias with its target list.
pub open spec fn paths_model(v: Seq<(String, Vec<String>)>) -> Seq<(Seq<char>, Seq<Seq<char>>)> {
    Seq::new(v.len(), |i: int| (v[i].0@, v[i].1.deep_view()))
}

/// The part of the compiler options that merging reads, at view level.
pub open spec fn co_model(c: Option<CompilerOptions>) -> Option<
    (Option<Seq<(Seq<char>, Seq<Seq<char>>)>>, Option<Seq<char>>),
> {
    match c {
        Option::None => Option::None,
        Option::Some(co) => Option::Some(
            (
                match co.paths {
                    Option::None => Option::None,
                    Option::Some(v) => Option::Some(paths_model(v@)),
                },
                opt_view(co.base_url),
            ),
        ),
    }
}

/// What merging an inherited configuration into a child yields: the parent's
/// options stand in wholesale when the child declares none; otherwise the
/// alias tables merge with child precedence, and the child's base directory
/// wins when it declares one.
pub open spec fn spec_merge_co(
    c: Option<(Option<Seq<(Seq<char>, Seq<Seq<char>>)>>, Option<Seq<char>>)>,
    p: Option<(Option<Seq<(Seq<char>, Seq<Seq<char>>)>>, Option<Seq<char>>)>,
) -> Option<(Option<Seq<(Seq<char>, Seq<Seq<char>>)>>, Option<Seq<char>>)> {
    match c {
        Option::None => p,
        Option::Some(cm) => Option::Some(
            (
                match p {
                    Option::None => cm.0,
                    Option::Some(pm) => match pm.0 {
                        Option::None => cm.0,
                        Option::Some(pp) => Option::Some(
                            merge_entries(
                                match cm.0 {
                                    Option::Some(cp) => cp,
                                    Option::None => Seq::empty(),
                                },
                                pp,
                            ),
                        ),
                    },
                },
                match cm.1 {
                    Option::Some(b) => Option::Some(b),
                    Option::None => match p {
                        Option::Some(pm) => pm.1,
                        Option::None => Option::None,
                    },
                },
            ),
        ),
    }
}

fn clone_string_vec(v: &Vec<String>) -> (r: Vec<String>)
    ensures
        r.deep_view() == v.deep_view(),
{
    let mut r: Vec<String> = Vec::new();
    let mut i: usize = 0;
    while i < v.len()
        invariant
            v.len() == v@.len(),
            i <= v@.len(),
            r@.len() == i,
            forall|k: int| 0 <= k < i ==> r@[k]@ == v@[k]@,
        decreases v@.len() - i,
    {
        r.push(v[i].clone());
        i = i + 1;
    }
    proof {
        assert(r.deep_view() =~~= v.deep_view());
    }
    r
}

/// Whether the declared alias table binds a key.
fn paths_contains_key(v: &Vec<(String, Vec<String>)>, k: &String) -> (r: bool)
    ensures
        r == kv_has(paths_model(v@), k@),
{
    let ghost m = paths_model(v@);
    let mut i: usize = 0;
    while i < v.len()
        invariant
            v.len() == v@.len(),
            m == paths_model(v@),
            m.len() == v@.len(),
            i <= v@.len(),
            forall|j: int| 0 <= j < i ==> (#[trigger] m[j]).0 != k@,
        decreases v@.len() - i,
    {
        if v[i].0 == *k {
            proof {
                assert(m[i as int].0 == k@);
                lemma_kv_lookup_exists(m, k@);
            }
            return true;
        }
        i = i + 1;
    }
    proof {
        lemma_kv_lookup_exists(m, k@);
    }
    false
}

/// No two entries bind the same key.
pub open spec fn kv_keys_unique<V>(s: Seq<(Seq<char>, V)>) -> bool {
    forall|i: int, j: int| 0 <= i < j < s.len() ==> (#[trigger] s[i]).0 != (#[trigger] s[j]).0
}

/// The alias table of a parsed configuration binds each alias once.
pub open spec fn tsconfig_wf(c: TsConfig) -> bool {
    match c.compiler_options {
        Option::Some(co) => match co.paths {
            Option::Some(v) => kv_keys_unique(paths_model(v@)),
            Option::None => true,
        },
        Option::None => true,
    }
}

proof fn lemma_absent_subset_keys<V>(c: Seq<(Seq<char>, V)>, p: Seq<(Seq<char>, V)>, k: Seq<char>)
    ensures
        kv_has(absent_entries(c, p), k) ==> kv_has(p, k) && !kv_has(c, k),
{
    lemma_absent_lookup(c, p, k);
}

proof fn lemma_absent_unique<V>(c: Seq<(Seq<char>, V)>, p: Seq<(Seq<char>, V)>)
    requires
        kv_keys_unique(p),
    ensures
        kv_keys_unique(absent_entries(c, p)),
        forall|i: int| 0 <= i < absent_entries(c, p).len() ==> kv_has(
            p,
            (#[trigger] absent_entries(c, p)[i]).0,
        ) && !kv_has(c, absent_entries(c, p)[i].0),
    decreases p.len(),
{
    if p.len() > 0 {
        let rest = p.subrange(1, p.len() as int);
        assert(kv_keys_unique(rest)) by {
            assert(forall|i: int| 0 <= i < rest.len() ==> rest[i] == p[i + 1]);
        }
        lemma_absent_unique(c, rest);
        let ar = absent_entries(c, rest);
        assert forall|i: int| 0 <= i < ar.len() implies kv_has(p, (#[trigger] ar[i]).0) by {
            lemma_kv_lookup_exists(rest, ar[i].0);
            let j = choose|j: int| 0 <= j < rest.len() && (#[trigger] rest[j]).0 == ar[i].0;
            assert(p[j + 1] == rest[j]);
            lemma_kv_lookup_exists(p, ar[i].0);
        }
        if !kv_has(c, p[0].0) {
            let a = seq![p[0]] + ar;
            assert forall|i: int, j: int| 0 <= i < j < a.len() implies (#[trigger] a[i]).0 != (
            #[trigger] a[j]).0 by {
                if i == 0 {
                    assert(a[j] == ar[j - 1]);
                    lemma_kv_lookup_exists(rest, ar[j - 1].0);
                    if a[0].0 == a[j].0 {
                        let m = choose|m: int|
                            0 <= m < rest.len() && (#[trigger] rest[m]).0 == ar[j - 1].0;
                        assert(p[m + 1] == rest[m]);
                        assert(p[0].0 == p[m + 1].0);
                        assert(false);
                    }
                } else {
                    assert(a[i] == ar[i - 1] && a[j] == ar[j - 1]);
                }
            }
        }
    }
}

/// A merged table still binds each key once.
pub proof fn lemma_merge_unique<V>(c: Seq<(Seq<char>, V)>, p: Seq<(Seq<char>, V)>)
    requires
        kv_keys_unique(c),
        kv_keys_unique(p),
    ensures
        kv_keys_unique(merge_entries(c, p)),
{
    lemma_absent_unique(c, p);
    let a = absent_entries(c, p);
    let m = c + a;
    assert forall|i: int, j: int| 0 <= i < j < m.len() implies (#[trigger] m[i]).0 != (
    #[trigger] m[j]).0 by {
        if i < c.len() && j >= c.len() {
            assert(m[i] == c[i] && m[j] == a[j - c.len()]);
            if m[i].0 == m[j].0 {
                lemma_kv_lookup_exists(c, c[i].0);
                assert(kv_has(c, a[j - c.len()].0));
                assert(false);
            }
        } else if i >= c.len() {
            assert(m[i] == a[i - c.len()] && m[j] == a[j - c.len()]);
        } else {
            assert(m[i] == c[i] && m[j] == c[j]);
        }
    }
}

/// Merge an inherited path-mapping configuration into a child's, child
/// entries and settings taking precedence.
pub fn merge_tsconfig(child: TsConfig, parent: TsConfig) -> (r: TsConfig)
    requires
        tsconfig_wf(child),
        tsconfig_wf(parent),
    ensures
        tsconfig_wf(r),
        opt_view(r.extends) == opt_view(child.extends),
        co_model(r.compiler_options) == spec_merge_co(
            co_model(child.compiler_options),
            co_model(parent.compiler_options),
        ),
{
    match child.compiler_options {
        Option::None => TsConfig { extends: child.extends, compiler_options: parent.compiler_options },
        Option::Some(cco) => {
            let parent_co = parent.compiler_options;
            let merged_paths: Option<Vec<(String, Vec<String>)>> = match &parent_co {
                Option::None => cco.paths,
                Option::Some(pco) => match &pco.paths {
                    Option::None => cco.paths,
                    Option::Some(pp) => {
                        let mut out: Vec<(String, Vec<String>)> = match cco.paths {
                            Option::Some(cp) => cp,
                            Option::None => Vec::new(),
                        };
                        let ghost cm = paths_model(out@);
                        let mut i: usize = 0;
                        proof {
                            assert(paths_model(out@) =~= cm + absent_entries(
                                cm,
                                paths_model(pp@).subrange(0, 0),
                            ));
                        }
                        while i < pp.len()
                            invariant
                                pp.len() == pp@.len(),
                                i <= pp@.len(),
                                kv_keys_unique(paths_model(pp@)),
                                paths_model(out@) == cm + absent_entries(
                                    cm,
                                    paths_model(pp@).subrange(0, i as int),
                                ),
                            decreases pp@.len() - i,
                        {
                            let ghost pm = paths_model(pp@);
                            let ghost pre = pm.subrange(0, i as int);
                            let ghost cur = pm.subrange(0, i + 1);
                            let ghost key = pm[i as int].0;
                            proof {
                                lemma_absent_snoc(cm, pre, pm[i as int]);
                                assert(cur =~= pre.push(pm[i as int]));
                            }
                            let present = paths_contains_key(&out, &pp[i].0);
                            let ghost out0 = paths_model(out@);
                            proof {
                                assert(pp@[i as int].0@ == key);
                                lemma_kv_lookup_concat(cm, absent_entries(cm, pre), key);
                            }
                            if !present {
                                proof {
                                    assert(!kv_has(cm, key));
                                }
                                out.push((pp[i].0.clone(), clone_string_vec(&pp[i].1)));
                                proof {
                                    assert(paths_model(out@) =~~= out0.push(
                                        (pp@[i as int].0@, pp@[i as int].1.deep_view()),
                                    ));
                                    assert(pm[i as int] == (
                                        pp@[i as int].0@,
                                        pp@[i as int].1.deep_view(),
                                    ));
                                    assert(out0.push(pm[i as int]) =~= cm + (absent_entries(cm, pre)
                                        + seq![pm[i as int]]));
                                    assert(paths_model(out@) =~= cm + absent_entries(cm, cur));
                                }
                            } else {
                                proof {
                                    if !kv_has(cm, key) {
                                        lemma_absent_lookup(cm, pre, key);
                                        lemma_kv_lookup_exists(pre, key);
                                        let j = choose|j: int|
                                            0 <= j < pre.len() && (#[trigger] pre[j]).0 == key;
                                        assert(pm[j] == pre[j]);
                                        assert(pm[j].0 == pm[i as int].0);
                                        assert(false);
                                    }
                                    assert(paths_model(out@) =~= cm + absent_entries(cm, cur));
                                }
                            }
                            i = i + 1;
                        }
                        proof {
                            assert(paths_model(pp@).subrange(0, i as int) =~= paths_model(pp@));
                            lemma_merge_unique(cm, paths_model(pp@));
                        }
                        Option::Some(out)
                    },
                },
            };
            let merged_base: Option<String> = match cco.base_url {
                Option::Some(b) => Option::Some(b),
                Option::None => match parent_co {
                    Option::Some(pco) => pco.base_url,
                    Option::None => Option::None,
                },
            };
            TsConfig {
                extends: child.extends,
                compiler_options: Option::Some(
                    CompilerOptions { paths: merged_paths, base_url: merged_base },
                ),
            }
        },
    }
}

/// Appending one more parent entry extends the absent-entry run by that
/// entry exactly when the child does not bind its key.
proof fn lemma_absent_snoc<V>(c: Seq<(Seq<char>, V)>, p: Seq<(Seq<char>, V)>, e: (Seq<char>, V))
    ensures
        absent_entries(c, p.push(e)) == if kv_has(c, e.0) {
            absent_entries(c, p)
        } else {
            absent_entries(c, p) + seq![e]
        },
    decreases p.len(),
{
    let pe = p.push(e);
    let restpe = pe.subrange(1, pe.len() as int);
    if p.len() == 0 {
        assert(pe[0] == e);
        assert(restpe =~= Seq::<(Seq<char>, V)>::empty());
        assert(absent_entries(c, restpe) == Seq::<(Seq<char>, V)>::empty());
        if !kv_has(c, e.0) {
            assert(absent_entries(c, pe) == seq![e] + Seq::<(Seq<char>, V)>::empty());
            assert(absent_entries(c, p) == Seq::<(Seq<char>, V)>::empty());
            assert(seq![e] + Seq::<(Seq<char>, V)>::empty() =~= absent_entries(c, p) + seq![e]);
        } else {
            assert(absent_entries(c, pe) == absent_entries(c, restpe));
        }
    } else {
        let rest = p.subrange(1, p.len() as int);
        assert(restpe =~= rest.push(e));
        lemma_absent_snoc(c, rest, e);
        assert(pe[0] == p[0]);
        assert(absent_entries(c, pe) == if kv_has(c, p[0].0) {
            absent_entries(c, restpe)
        } else {
            seq![p[0]] + absent_entries(c, restpe)
        });
        assert(absent_entries(c, p) == if kv_has(c, p[0].0) {
            absent_entries(c, rest)
        } else {
            seq![p[0]] + absent_entries(c, rest)
        });
        if !kv_has(c, e.0) && !kv_has(c, p[0].0) {
            assert(seq![p[0]] + (absent_entries(c, rest) + seq![e]) =~= (seq![p[0]]
                + absent_entries(c, rest)) + seq![e]);
        }
    }
}


/// An alias or target with its trailing wildcard markers removed: every
/// trailing `/*`, then every trailing `*`.
pub open spec fn strip_wildcard_spec(s: Seq<char>) -> Seq<char> {
    strip_suffix_all_spec(strip_suffix_all_spec(s, "/*"@), "*"@)
}

/// Strip the trailing wildcard markers of a path-mapping key or target.
pub fn strip_wildcard(v: &Vec<char>) -> (r: Vec<char>)
    ensures
        r@ == strip_wildcard_spec(v@),
{
    let slash_star = to_chars("/*");
    let star = to_chars("*");
    let first = strip_suffix_all(v, &slash_star);
    strip_suffix_all(&first, &star)
}

/// Joining a further path component, as the filesystem library does: an
/// absolute right side replaces the left side entirely.
pub open spec fn path_join_spec(a: Seq<char>, b: Seq<char>) -> Seq<char> {
    if b.len() > 0 && b[0] == '/' {
        b
    } else if a.len() == 0 {
        b
    } else if a[a.len() - 1] == '/' {
        a + b
    } else {
        a + "/"@ + b
    }
}

/// Join two path fragments with a separator.
pub fn path_join(a: &Vec<char>, b: &Vec<char>) -> (r: Vec<char>)
    ensures
        r@ == path_join_spec(a@, b@),
{
    if b.len() > 0 && b[0] == '/' {
        subrange_chars(b, 0, b.len())
    } else if a.len() == 0 {
        subrange_chars(b, 0, b.len())
    } else if a[a.len() - 1] == '/' {
        let mut r = subrange_chars(a, 0, a.len());
        crate::text::append_chars(&mut r, b);
        proof {
            assert(r@ =~= a@ + b@);
        }
        r
    } else {
        let mut r = subrange_chars(a, 0, a.len());
        let sep = to_chars("/");
        crate::text::append_chars(&mut r, &sep);
        crate::text::append_chars(&mut r, b);
        proof {
            assert(r@ =~= a@ + "/"@ + b@);
        }
        r
    }
}

/// Lexical resolution of dot and dot-dot segments: empty and `.` segments
/// vanish, `..` removes the nearest segment to its left when there is one
/// and vanishes otherwise, and a leading root loses its absoluteness.
pub open spec fn simplify_segments(segs: Seq<Seq<char>>) -> Seq<Seq<char>>
    decreases segs.len(),
{
    if segs.len() == 0 {
        Seq::empty()
    } else {
        let front = simplify_segments(segs.subrange(0, segs.len() - 1));
        let last = segs[segs.len() - 1];
        if last.len() == 0 || last == "."@ {
            front
        } else if last == ".."@ {
            if front.len() > 0 {
                front.subrange(0, front.len() - 1)
            } else {
                front
            }
        } else {
            front.push(last)
        }
    }
}

/// The segments joined back with single separators.
pub open spec fn join_segments(segs: Seq<Seq<char>>) -> Seq<char>
    decreases segs.len(),
{
    if segs.len() == 0 {
        Seq::empty()
    } else if segs.len() == 1 {
        segs[0]
    } else {
        join_segments(segs.subrange(0, segs.len() - 1)) + "/"@ + segs[segs.len() - 1]
    }
}

/// What lexically simplifying a path yields; an empty result reads as the
/// current directory.
pub open spec fn spec_simplify_path(s: Seq<char>) -> Seq<char> {
    let r = join_segments(simplify_segments(split_spec(s, '/')));
    if r.len() == 0 {
        "."@
    } else {
        r
    }
}

impl Config {
    /// Resolve `..` and `.` components of a path purely lexically, without
    /// touching the filesystem.
    pub fn simplify_path(&self, path: &str) -> (r: String)
        ensures
            r@ == spec_simplify_path(path@),
    {
        let chars = to_chars(path);
        let segs = split_chars(&chars, '/');
        let ghost sm = segs.deep_view();
        let dot = to_chars(".");
        let dotdot = to_chars("..");
        let mut stack: Vec<Vec<char>> = Vec::new();
        let mut i: usize = 0;
        proof {
            assert(sm.subrange(0, 0) =~= Seq::<Seq<char>>::empty());
            assert(stack.deep_view() =~~= simplify_segments(sm.subrange(0, 0)));
        }
        while i < segs.len()
            invariant
                segs.len() == sm.len(),
                sm == segs.deep_view(),
                i <= sm.len(),
                dot@ == "."@,
                dotdot@ == ".."@,
                stack.deep_view() == simplify_segments(sm.subrange(0, i as int)),
            decreases sm.len() - i,
        {
            let ghost pre = sm.subrange(0, i as int);
            let ghost cur = sm.subrange(0, i + 1);
            proof {
                assert(cur.subrange(0, cur.len() - 1) =~= pre);
                assert(cur[cur.len() - 1] == sm[i as int]);
                assert(segs@[i as int].deep_view() =~= segs@[i as int]@);
            }
            let seg = &segs[i];
            if seg.len() == 0 || chars_eq(seg, &dot) {
                proof {
                    assert(stack.deep_view() =~~= simplify_segments(cur));
                }
            } else if chars_eq(seg, &dotdot) {
                let ghost st0 = stack.deep_view();
                if stack.len() > 0 {
                    stack.pop();
                    proof {
                        assert(stack.deep_view() =~~= st0.subrange(0, st0.len() - 1));
                        assert(stack.deep_view() =~~= simplify_segments(cur));
                    }
                } else {
                    proof {
                        assert(stack.deep_view() =~~= simplify_segments(cur));
                    }
                }
            } else {
                let ghost st0 = stack.deep_view();
                stack.push(subrange_chars(seg, 0, seg.len()));
                proof {
                    assert(stack.deep_view() =~~= st0.push(sm[i as int]));
                    assert(stack.deep_view() =~~= simplify_segments(cur));
                }
            }
            i = i + 1;
        }
        proof {
            assert(sm.subrange(0, i as int) =~= sm);
        }
        let mut out: Vec<char> = Vec::new();
        let mut j: usize = 0;
        let ghost fin = stack.deep_view();
        proof {
            assert(fin.subrange(0, 0) =~= Seq::<Seq<char>>::empty());
            assert(out@ =~= join_segments(fin.subrange(0, 0)));
        }
        while j < stack.len()
            invariant
                stack.len() == fin.len(),
                fin == stack.deep_view(),
                j <= fin.len(),
                out@ == join_segments(fin.subrange(0, j as int)),
            decreases fin.len() - j,
        {
            let ghost pre = fin.subrange(0, j as int);
            let ghost cur = fin.subrange(0, j + 1);
            proof {
                assert(cur.subrange(0, cur.len() - 1) =~= pre);
                assert(cur[cur.len() - 1] == fin[j as int]);
                assert(stack@[j as int].deep_view() =~= stack@[j as int]@);
            }
            if j > 0 {
                out.push('/');
            }
            crate::text::append_chars(&mut out, &stack[j]);
            proof {
                if j == 0 {
                    assert(cur.len() == 1);
                    assert(out@ =~= fin[0]);
                } else {
                    reveal_strlit("/");
                    assert("/"@ =~= seq!['/']);
                    assert(out@ =~= join_segments(pre) + "/"@ + fin[j as int]);
                }
            }
            j = j + 1;
        }
        proof {
            assert(fin.subrange(0, j as int) =~= fin);
        }
        if out.len() == 0 {
            let r = ".".to_owned();
            proof {
                assert(r@ == spec_simplify_path(path@));
            }
            r
        } else {
            chars_to_string(&out)
        }
    }
}


/// Re-express a path relative to the working directory when it lies under
/// it, and keep it as resolved otherwise.
pub open spec fn relativize_spec(resolved: Seq<char>, cwd: Seq<char>) -> Seq<char> {
    if cwd.len() > 0 && resolved == cwd {
        Seq::empty()
    } else if cwd.len() > 0 && crate::text::starts_with_spec(resolved, cwd + "/"@) {
        resolved.subrange(cwd.len() + 1 as int, resolved.len() as int)
    } else {
        resolved
    }
}

/// A leading `./` is dropped from a resolved target.
pub open spec fn drop_dot_slash(s: Seq<char>) -> Seq<char> {
    if crate::text::starts_with_spec(s, "./"@) {
        s.subrange(2, s.len() as int)
    } else {
        s
    }
}

/// What one declared target resolves to: wildcard stripped, joined under the
/// base directory relative to the configuration file, lexically simplified,
/// re-expressed relative to the working directory, separators normalized,
/// and a leading `./` dropped.
pub open spec fn spec_resolve_target(
    target: Seq<char>,
    config_dir: Seq<char>,
    base_url: Seq<char>,
    cwd: Seq<char>,
) -> Seq<char> {
    let ct = strip_wildcard_spec(target);
    let resolved = spec_simplify_path(path_join_spec(path_join_spec(config_dir, base_url), ct));
    drop_dot_slash(
        crate::text::replace_all_spec(relativize_spec(resolved, cwd), "\\"@, "/"@),
    )
}

/// The position of the first entry binding `k`, or the length when none does.
pub open spec fn kv_index_of<V>(s: Seq<(Seq<char>, V)>, k: Seq<char>) -> int
    decreases s.len(),
{
    if s.len() == 0 {
        0
    } else if s[0].0 == k {
        0
    } else {
        1 + kv_index_of(s.subrange(1, s.len() as int), k)
    }
}

pub proof fn lemma_kv_index_of<V>(s: Seq<(Seq<char>, V)>, k: Seq<char>)
    ensures
        0 <= kv_index_of(s, k) <= s.len(),
        kv_index_of(s, k) < s.len() <==> kv_has(s, k),
        kv_index_of(s, k) < s.len() ==> (#[trigger] s[kv_index_of(s, k)]).0 == k,
        forall|j: int| 0 <= j < kv_index_of(s, k) ==> (#[trigger] s[j]).0 != k,
    decreases s.len(),
{
    if s.len() > 0 && s[0].0 != k {
        let rest = s.subrange(1, s.len() as int);
        lemma_kv_index_of(rest, k);
        assert(forall|j: int| 0 <= j < rest.len() ==> rest[j] == s[j + 1]);
        assert forall|j: int| 0 <= j < kv_index_of(s, k) implies (#[trigger] s[j]).0 != k by {
            if j > 0 {
                assert(rest[j - 1] == s[j]);
            }
        }
    }
}

proof fn lemma_kv_index_pins<V>(s: Seq<(Seq<char>, V)>, k: Seq<char>, i: int)
    requires
        0 <= i <= s.len(),
        forall|j: int| 0 <= j < i ==> (#[trigger] s[j]).0 != k,
        i == s.len() || s[i].0 == k,
    ensures
        kv_index_of(s, k) == i,
    decreases i,
{
    if s.len() > 0 {
        if i == 0 {
            if s.len() == i {
            }
        } else {
            let rest = s.subrange(1, s.len() as int);
            assert(forall|j: int| 0 <= j < rest.len() ==> rest[j] == s[j + 1]);
            lemma_kv_index_pins(rest, k, i - 1);
        }
    }
}

/// A linear scan over the keys that stops at `i` pins the lookup's result.
pub proof fn lemma_kv_scan_result<V>(s: Seq<(Seq<char>, V)>, k: Seq<char>, i: int)
    requires
        0 <= i <= s.len(),
        forall|j: int| 0 <= j < i ==> (#[trigger] s[j]).0 != k,
        i == s.len() || s[i].0 == k,
    ensures
        i < s.len() ==> kv_lookup(s, k) == Option::Some(s[i].1),
        i == s.len() ==> !kv_has(s, k),
{
    lemma_kv_index_pins(s, k, i);
    lemma_kv_index_of(s, k);
    lemma_kv_lookup_at_index(s, k);
}

/// Bind `k` to `v`: in place when the table already binds `k`, appended
/// otherwise.
pub open spec fn kv_insert<V>(s: Seq<(Seq<char>, V)>, k: Seq<char>, v: V) -> Seq<(Seq<char>, V)> {
    if kv_has(s, k) {
        s.update(kv_index_of(s, k), (k, v))
    } else {
        s.push((k, v))
    }
}

/// The view of a resolved alias table.
pub open spec fn rp_model(v: Seq<(String, String)>) -> Seq<(Seq<char>, Seq<char>)> {
    Seq::new(v.len(), |i: int| (v[i].0@, v[i].1@))
}

/// Bind an alias in a resolved table, replacing any earlier binding.
fn rp_insert(out: &mut Vec<(String, String)>, k: String, v: String)
    ensures
        rp_model(final(out)@) == kv_insert(rp_model(old(out)@), k@, v@),
{
    let ghost m0 = rp_model(out@);
    let mut i: usize = 0;
    while i < out.len()
        invariant
            out.len() == out@.len(),
            out@ == old(out)@,
            m0 == rp_model(out@),
            m0.len() == out@.len(),
            i <= out@.len(),
            forall|j: int| 0 <= j < i ==> (#[trigger] m0[j]).0 != k@,
        decreases out@.len() - i,
    {
        if out[i].0 == k {
            proof {
                assert(m0[i as int].0 == k@);
                lemma_kv_index_pins(m0, k@, i as int);
                lemma_kv_index_of(m0, k@);
            }
            out.remove(i);
            out.insert(i, (k, v));
            proof {
                assert(rp_model(out@) =~~= m0.update(i as int, (k@, v@)));
            }
            return ;
        }
        i = i + 1;
    }
    proof {
        lemma_kv_index_pins(m0, k@, m0.len() as int);
        lemma_kv_index_of(m0, k@);
    }
    out.push((k, v));
    proof {
        assert(rp_model(out@) =~~= m0.push((k@, v@)));
    }
}

/// What resolving a whole alias table yields: each alias with at least one
/// declared target, wildcards stripped, bound to its first target resolved;
/// a later alias stripping to the same key replaces the earlier binding.
pub open spec fn spec_resolve_mappings(
    entries: Seq<(Seq<char>, Seq<Seq<char>>)>,
    config_dir: Seq<char>,
    base_url: Seq<char>,
    cwd: Seq<char>,
) -> Seq<(Seq<char>, Seq<char>)>
    decreases entries.len(),
{
    if entries.len() == 0 {
        Seq::empty()
    } else {
        let front = spec_resolve_mappings(
            entries.subrange(0, entries.len() - 1),
            config_dir,
            base_url,
            cwd,
        );
        let e = entries[entries.len() - 1];
        if e.1.len() == 0 {
            front
        } else {
            kv_insert(
                front,
                strip_wildcard_spec(e.0),
                spec_resolve_target(e.1[0], config_dir, base_url, cwd),
            )
        }
    }
}

impl Config {
    /// Resolve a declared alias table to concrete project-relative paths.
    pub fn resolve_path_mappings(
        &self,
        paths: &Vec<(String, Vec<String>)>,
        config_dir: &str,
        base_url: &str,
        current_dir: &str,
    ) -> (r: Vec<(String, String)>)
        ensures
            rp_model(r@) == spec_resolve_mappings(
                paths_model(paths@),
                config_dir@,
                base_url@,
                current_dir@,
            ),
    {
        let cd = to_chars(config_dir);
        let bu = to_chars(base_url);
        let cwd = to_chars(current_dir);
        let base = path_join(&cd, &bu);
        let mut out: Vec<(String, String)> = Vec::new();
        let ghost pm = paths_model(paths@);
        let mut i: usize = 0;
        proof {
            assert(pm.subrange(0, 0) =~= Seq::<(Seq<char>, Seq<Seq<char>>)>::empty());
            assert(rp_model(out@) =~~= spec_resolve_mappings(
                pm.subrange(0, 0),
                config_dir@,
                base_url@,
                current_dir@,
            ));
        }
        while i < paths.len()
            invariant
                paths.len() == paths@.len(),
                pm == paths_model(paths@),
                pm.len() == paths@.len(),
                i <= paths@.len(),
                base@ == path_join_spec(config_dir@, base_url@),
                cwd@ == current_dir@,
                rp_model(out@) == spec_resolve_mappings(
                    pm.subrange(0, i as int),
                    config_dir@,
                    base_url@,
                    current_dir@,
                ),
            decreases paths@.len() - i,
        {
            let ghost pre = pm.subrange(0, i as int);
            let ghost cur = pm.subrange(0, i + 1);
            proof {
                assert(cur.subrange(0, cur.len() - 1) =~= pre);
                assert(cur[cur.len() - 1] == pm[i as int]);
            }
            if paths[i].1.len() > 0 {
                proof {
                    assert(paths@[i as int].1.deep_view()[0] == paths@[i as int].1@[0]@);
                }
                let alias_chars = to_chars(paths[i].0.as_str());
                let clean_alias = strip_wildcard(&alias_chars);
                let target_chars = to_chars(paths[i].1[0].as_str());
                let ct = strip_wildcard(&target_chars);
                let joined = path_join(&base, &ct);
                let joined_s = chars_to_string(&joined);
                let simplified = self.simplify_path(joined_s.as_str());
                let sc = to_chars(simplified.as_str());
                let mut sep_cwd = subrange_chars(&cwd, 0, cwd.len());
                sep_cwd.push('/');
                proof {
                    reveal_strlit("/");
                    assert("/"@ =~= seq!['/']);
                    assert(sep_cwd@ =~= current_dir@ + "/"@);
                }
                let rel: Vec<char> = if cwd.len() > 0 && chars_eq(&sc, &cwd) {
                    Vec::new()
                } else if cwd.len() > 0 && crate::text::starts_with_chars(&sc, &sep_cwd) {
                    proof {
                        assert(sep_cwd@.len() == cwd@.len() + 1);
                        assert(cwd@.len() + 1 <= sc@.len());
                        assert(sc.len() == sc@.len());
                        assert(cwd.len() < sc.len());
                    }
                    subrange_chars(&sc, cwd.len() + 1, sc.len())
                } else {
                    subrange_chars(&sc, 0, sc.len())
                };
                proof {
                    assert(rel@ == relativize_spec(sc@, current_dir@));
                }
                let bs = to_chars("\\");
                let fs = to_chars("/");
                let norm = crate::text::replace_all(&rel, &bs, &fs);
                let dot_slash = to_chars("./");
                let fin: Vec<char> = if crate::text::starts_with_chars(&norm, &dot_slash) {
                    proof {
                        reveal_strlit("./");
                        assert(norm@.len() >= 2);
                    }
                    subrange_chars(&norm, 2, norm.len())
                } else {
                    subrange_chars(&norm, 0, norm.len())
                };
                proof {
                    assert(fin@ == drop_dot_slash(norm@));
                    assert(fin@ == spec_resolve_target(
                        pm[i as int].1[0],
                        config_dir@,
                        base_url@,
                        current_dir@,
                    ));
                }
                rp_insert(&mut out, chars_to_string(&clean_alias), chars_to_string(&fin));
                proof {
                    assert(rp_model(out@) == spec_resolve_mappings(
                        cur,
                        config_dir@,
                        base_url@,
                        current_dir@,
                    ));
                }
            } else {
                proof {
                    assert(pm[i as int].1.len() == 0);
                    assert(rp_model(out@) == spec_resolve_mappings(
                        cur,
                        config_dir@,
                        base_url@,
                        current_dir@,
                    ));
                }
            }
            i = i + 1;
        }
        proof {
            assert(pm.subrange(0, i as int) =~= pm);
        }
        out
    }
}


/// The URL template a registry configuration carries.
pub open spec fn spec_registry_url(c: RegistryConfig) -> Seq<char> {
    match c {
        RegistryConfig::String(u) => u@,
        RegistryConfig::Object { url, .. } => url@,
    }
}

impl RegistryConfig {
    /// The registry's URL template.
    pub fn url(&self) -> (r: &str)
        ensures
            r@ == spec_registry_url(*self),
    {
        match self {
            RegistryConfig::String(url) => url.as_str(),
            RegistryConfig::Object { url, .. } => url.as_str(),
        }
    }

    /// The query parameters, where the configuration declares any.
    pub fn params(&self) -> (r: Option<&Vec<(String, String)>>)
        ensures
            match *self {
                RegistryConfig::String(_) => r is None,
                RegistryConfig::Object { params, .. } => match (r, params) {
                    (Option::Some(a), Option::Some(b)) => *a == b,
                    (Option::None, Option::None) => true,
                    _ => false,
                },
            },
    {
        match self {
            RegistryConfig::String(_) => None,
            RegistryConfig::Object { params, .. } => params.as_ref(),
        }
    }

    /// The HTTP headers, where the configuration declares any.
    pub fn headers(&self) -> (r: Option<&Vec<(String, String)>>)
        ensures
            match *self {
                RegistryConfig::String(_) => r is None,
                RegistryConfig::Object { headers, .. } => match (r, headers) {
                    (Option::Some(a), Option::Some(b)) => *a == b,
                    (Option::None, Option::None) => true,
                    _ => false,
                },
            },
    {
        match self {
            RegistryConfig::String(_) => None,
            RegistryConfig::Object { headers, .. } => headers.as_ref(),
        }
    }
}

/// The view of the configured registry table.
pub open spec fn reg_model(v: Seq<(String, RegistryConfig)>) -> Seq<(Seq<char>, RegistryConfig)> {
    Seq::new(v.len(), |i: int| (v[i].0@, v[i].1))
}

/// Which registry a namespace selects: the namespace's own entry, else the
/// one named `default`, else the one named `@default`.
pub open spec fn spec_get_registry(
    regs: Seq<(Seq<char>, RegistryConfig)>,
    ns: Seq<char>,
) -> Option<RegistryConfig> {
    if kv_has(regs, ns) {
        kv_lookup(regs, ns)
    } else if kv_has(regs, "default"@) {
        kv_lookup(regs, "default"@)
    } else {
        kv_lookup(regs, "@default"@)
    }
}

proof fn lemma_kv_lookup_at_index<V>(s: Seq<(Seq<char>, V)>, k: Seq<char>)
    ensures
        kv_has(s, k) ==> kv_lookup(s, k) == Option::Some(s[kv_index_of(s, k)].1),
    decreases s.len(),
{
    if s.len() > 0 && s[0].0 != k {
        let rest = s.subrange(1, s.len() as int);
        lemma_kv_lookup_at_index(rest, k);
        lemma_kv_index_of(rest, k);
        if kv_has(s, k) {
            assert(rest[kv_index_of(rest, k)] == s[1 + kv_index_of(rest, k)]);
        }
    }
}

fn find_reg<'a>(regs: &'a Vec<(String, RegistryConfig)>, key: &str) -> (r: Option<
    &'a RegistryConfig,
>)
    ensures
        match r {
            Option::Some(c) => kv_lookup(reg_model(regs@), key@) == Option::Some(*c),
            Option::None => !kv_has(reg_model(regs@), key@),
        },
{
    let ghost m = reg_model(regs@);
    let mut i: usize = 0;
    while i < regs.len()
        invariant
            regs.len() == regs@.len(),
            m == reg_model(regs@),
            m.len() == regs@.len(),
            i <= regs@.len(),
            forall|j: int| 0 <= j < i ==> (#[trigger] m[j]).0 != key@,
        decreases regs@.len() - i,
    {
        if str_eq(regs[i].0.as_str(), key) {
            proof {
                assert(m[i as int].0 == key@);
                lemma_kv_index_pins(m, key@, i as int);
                lemma_kv_index_of(m, key@);
                lemma_kv_lookup_at_index(m, key@);
            }
            return Some(&regs[i].1);
        }
        i = i + 1;
    }
    proof {
        lemma_kv_index_pins(m, key@, m.len() as int);
        lemma_kv_index_of(m, key@);
    }
    None
}

fn reg_insert(regs: &mut Vec<(String, RegistryConfig)>, k: String, v: RegistryConfig)
    ensures
        reg_model(final(regs)@) == kv_insert(reg_model(old(regs)@), k@, v),
{
    let ghost m0 = reg_model(regs@);
    let mut i: usize = 0;
    while i < regs.len()
        invariant
            regs.len() == regs@.len(),
            regs@ == old(regs)@,
            m0 == reg_model(regs@),
            m0.len() == regs@.len(),
            i <= regs@.len(),
            forall|j: int| 0 <= j < i ==> (#[trigger] m0[j]).0 != k@,
        decreases regs@.len() - i,
    {
        if str_eq(regs[i].0.as_str(), k.as_str()) {
            proof {
                assert(m0[i as int].0 == k@);
                lemma_kv_index_pins(m0, k@, i as int);
                lemma_kv_index_of(m0, k@);
            }
            regs.remove(i);
            regs.insert(i, (k, v));
            proof {
                assert(reg_model(regs@) =~~= m0.update(i as int, (k@, v)));
            }
            return ;
        }
        i = i + 1;
    }
    proof {
        lemma_kv_index_pins(m0, k@, m0.len() as int);
        lemma_kv_index_of(m0, k@);
    }
    regs.push((k, v));
    proof {
        assert(reg_model(regs@) =~~= m0.push((k@, v)));
    }
}

/// The registries assumed when a configuration names none: the default
/// component source.
pub fn default_registries() -> (r: Vec<(String, RegistryConfig)>)
    ensures
        r@.len() == 1,
        r@[0].0@ == "default"@,
        r@[0].1 matches RegistryConfig::String(u) && u@
            == "https://shadcn-svelte.com/registry/{name}.json"@,
{
    let mut r: Vec<(String, RegistryConfig)> = Vec::new();
    r.push(
        (
            "default".to_owned(),
            RegistryConfig::String("https://shadcn-svelte.com/registry/{name}.json".to_owned()),
        ),
    );
    r
}

impl Default for Config {
    /// The configuration assumed when none is on disk.
    fn default() -> (r: Config)
        ensures
            opt_view(r.schema) == Option::Some("https://shadcn-svelte.com/schema.json"@),
            r.style is None,
            r.tailwind.css@ == "src/app.css"@,
            r.tailwind.base_color@ == "slate"@,
            r.tailwind.config is None,
            r.aliases.components@ == "$lib/components"@,
            r.aliases.utils@ == "$lib/utils"@,
            opt_view(r.aliases.ui) == Option::Some("$lib/components/ui"@),
            opt_view(r.aliases.hooks) == Option::Some("$lib/hooks"@),
            opt_view(r.aliases.lib) == Option::Some("$lib"@),
            r.registries@.len() == 1 && r.registries@[0].0@ == "default"@,
            r.registries@[0].1 matches RegistryConfig::String(u) && u@
                == "https://shadcn-svelte.com/registry/{name}.json"@,
            r.typescript matches Option::Some(TypeScriptConfig::Boolean(b)) && b,
    {
        Config {
            schema: Some("https://shadcn-svelte.com/schema.json".to_owned()),
            style: None,
            tailwind: TailwindConfig {
                css: "src/app.css".to_owned(),
                base_color: "slate".to_owned(),
                config: None,
            },
            aliases: AliasesConfig {
                components: "$lib/components".to_owned(),
                utils: "$lib/utils".to_owned(),
                ui: Some("$lib/components/ui".to_owned()),
                hooks: Some("$lib/hooks".to_owned()),
                lib: Some("$lib".to_owned()),
            },
            registries: default_registries(),
            typescript: Some(TypeScriptConfig::Boolean(true)),
        }
    }
}

impl Config {
    /// The registry a namespace selects, falling back to the default entries.
    pub fn get_registry(&self, namespace: &str) -> (r: Option<&RegistryConfig>)
        ensures
            match r {
                Option::Some(c) => spec_get_registry(reg_model(self.registries@), namespace@)
                    == Option::Some(*c),
                Option::None => spec_get_registry(reg_model(self.registries@), namespace@) is None,
            },
    {
        match find_reg(&self.registries, namespace) {
            Option::Some(c) => Some(c),
            Option::None => match find_reg(&self.registries, "default") {
                Option::Some(c) => Some(c),
                Option::None => find_reg(&self.registries, "@default"),
            },
        }
    }

    /// The URL template of the registry a namespace selects.
    pub fn get_registry_url(&self, namespace: &str) -> (r: Option<&str>)
        ensures
            match r {
                Option::Some(u) => spec_get_registry(reg_model(self.registries@), namespace@)
                    matches Option::Some(c) && u@ == spec_registry_url(c),
                Option::None => spec_get_registry(reg_model(self.registries@), namespace@) is None,
            },
    {
        match self.get_registry(namespace) {
            Option::Some(c) => Some(c.url()),
            Option::None => None,
        }
    }

    /// Bind a namespace to a bare URL template.
    pub fn set_registry(&mut self, namespace: String, url: String)
        ensures
            reg_model(final(self).registries@) == kv_insert(
                reg_model(old(self).registries@),
                namespace@,
                RegistryConfig::String(url),
            ),
            final(self).schema == old(self).schema,
            final(self).style == old(self).style,
            final(self).tailwind == old(self).tailwind,
            final(self).aliases == old(self).aliases,
            final(self).typescript == old(self).typescript,
    {
        reg_insert(&mut self.registries, namespace, RegistryConfig::String(url));
    }

    /// Bind a namespace to a full registry configuration.
    pub fn set_registry_config(&mut self, namespace: String, config: RegistryConfig)
        ensures
            reg_model(final(self).registries@) == kv_insert(
                reg_model(old(self).registries@),
                namespace@,
                config,
            ),
            final(self).schema == old(self).schema,
            final(self).style == old(self).style,
            final(self).tailwind == old(self).tailwind,
            final(self).aliases == old(self).aliases,
            final(self).typescript == old(self).typescript,
    {
        reg_insert(&mut self.registries, namespace, config);
    }

    /// Bind a namespace to a URL template with parameters and headers.
    pub fn set_registry_with_config(
        &mut self,
        namespace: String,
        url: String,
        params: Option<Vec<(String, String)>>,
        headers: Option<Vec<(String, String)>>,
    )
        ensures
            reg_model(final(self).registries@) == kv_insert(
                reg_model(old(self).registries@),
                namespace@,
                RegistryConfig::Object { url, params, headers },
            ),
            final(self).schema == old(self).schema,
            final(self).style == old(self).style,
            final(self).tailwind == old(self).tailwind,
            final(self).aliases == old(self).aliases,
            final(self).typescript == old(self).typescript,
    {
        reg_insert(&mut self.registries, namespace, RegistryConfig::Object { url, params, headers });
    }
}

/// What parsing a path-mapping text yields: nothing for unparseable text,
/// else the inheritance link and the merge-relevant compiler options, as a
/// function of the text alone.
pub uninterp spec fn parsed_path_config(s: Seq<char>) -> Option<
    (Option<Seq<char>>, Option<(Option<Seq<(Seq<char>, Seq<Seq<char>>)>>, Option<Seq<char>>)>),
>;

/// Relies on json5::from_str: reads a path-mapping file in the comment- and
/// trailing-comma-tolerant superset of JSON, and hands back the inheritance
/// link, the alias table and the base directory; the table binds each alias
/// once because the parsed object does.
#[verifier::external_body]
pub fn parse_path_config(text: &str) -> (r: Option<TsConfig>)
    ensures
        match r {
            Option::Some(c) => parsed_path_config(text@) == Option::Some(
                (opt_view(c.extends), co_model(c.compiler_options)),
            ) && tsconfig_wf(c),
            Option::None => parsed_path_config(text@) is None,
        },
{
    let v: serde_json::Value = match json5::from_str(text) {
        Ok(v) => v,
        Err(_) => return None,
    };
    Some(TsConfig {
        extends: v.get("extends").and_then(|e| e.as_str()).map(|s| s.to_string()),
        compiler_options: v.get("compilerOptions").map(|c| CompilerOptions {
            base_url: c.get("baseUrl").and_then(|b| b.as_str()).map(|s| s.to_string()),
            paths: c.get("paths").and_then(|p| p.as_object()).map(|m| m.iter().map(|(k, t)| (
                k.clone(),
                serde_json::from_value(t.clone()).unwrap_or(Vec::new()),
            )).collect()),
        }),
    })
}

/// Whether TypeScript support is switched on.
pub open spec fn spec_ts_enabled(c: Config) -> bool {
    match c.typescript {
        Option::Some(TypeScriptConfig::Boolean(b)) => b,
        Option::Some(TypeScriptConfig::Object { .. }) => true,
        Option::None => false,
    }
}

/// The co-models of a chain of parsed configurations, child first.
pub open spec fn chain_models(chain: Seq<TsConfig>) -> Seq<
    Option<(Option<Seq<(Seq<char>, Seq<Seq<char>>)>>, Option<Seq<char>>)>,
> {
    Seq::new(chain.len(), |i: int| co_model(chain[i].compiler_options))
}

/// Folding the merge over a chain of configurations, the child leftmost.
pub open spec fn spec_fold_co(
    cms: Seq<Option<(Option<Seq<(Seq<char>, Seq<Seq<char>>)>>, Option<Seq<char>>)>>,
) -> Option<(Option<Seq<(Seq<char>, Seq<Seq<char>>)>>, Option<Seq<char>>)>
    decreases cms.len(),
{
    if cms.len() == 0 {
        Option::None
    } else if cms.len() == 1 {
        cms[0]
    } else {
        spec_merge_co(spec_fold_co(cms.subrange(0, cms.len() - 1)), cms[cms.len() - 1])
    }
}

/// What the merged configuration resolves to: nothing without an alias
/// table; else the table resolved under the declared base directory, the
/// current directory standing in when none is declared.
pub open spec fn spec_resolve_tsconfig(
    m: Option<(Option<Seq<(Seq<char>, Seq<Seq<char>>)>>, Option<Seq<char>>)>,
    config_dir: Seq<char>,
    cwd: Seq<char>,
) -> Option<(Seq<(Seq<char>, Seq<char>)>, Seq<char>)> {
    match m {
        Option::Some((Option::Some(paths), base_opt)) => {
            let bu = match base_opt {
                Option::Some(b) => b,
                Option::None => "."@,
            };
            Option::Some((spec_resolve_mappings(paths, config_dir, bu, cwd), bu))
        },
        _ => Option::None,
    }
}

impl Config {
    /// The path-mapping file that resolution starts from, when TypeScript
    /// support is on: the declared one, or the conventional name.
    pub fn config_file_name(&self) -> (r: Option<String>)
        ensures
            match self.typescript {
                Option::Some(TypeScriptConfig::Boolean(b)) => if b {
                    r matches Option::Some(p) && p@ == "tsconfig.json"@
                } else {
                    r is None
                },
                Option::Some(TypeScriptConfig::Object { config }) => r matches Option::Some(p)
                    && p@ == config@,
                Option::None => r is None,
            },
    {
        match &self.typescript {
            Option::Some(TypeScriptConfig::Boolean(b)) => {
                if *b {
                    Some("tsconfig.json".to_owned())
                } else {
                    None
                }
            },
            Option::Some(TypeScriptConfig::Object { config }) => Some(config.clone()),
            Option::None => None,
        }
    }

    /// Resolve the alias table of an already-merged configuration.
    pub fn resolve_tsconfig_paths(
        &self,
        merged: &TsConfig,
        config_dir: &str,
        current_dir: &str,
    ) -> (r: Option<ResolvedPaths>)
        ensures
            match r {
                Option::Some(rp) => spec_resolve_tsconfig(
                    co_model(merged.compiler_options),
                    config_dir@,
                    current_dir@,
                ) matches Option::Some(m) && rp_model(rp.paths@) == m.0 && rp.base_url@ == m.1,
                Option::None => spec_resolve_tsconfig(
                    co_model(merged.compiler_options),
                    config_dir@,
                    current_dir@,
                ) is None,
            },
    {
        match &merged.compiler_options {
            Option::Some(co) => match &co.paths {
                Option::Some(p) => {
                    let base_url: String = match &co.base_url {
                        Option::Some(b) => b.clone(),
                        Option::None => ".".to_owned(),
                    };
                    let resolved = self.resolve_path_mappings(
                        p,
                        config_dir,
                        base_url.as_str(),
                        current_dir,
                    );
                    Some(ResolvedPaths { paths: resolved, base_url })
                },
                Option::None => None,
            },
            Option::None => None,
        }
    }

    /// Resolve the alias table of a loaded inheritance chain of path-mapping
    /// configurations, the child first: the chain is merged child-first and
    /// the merged table resolved relative to the child's directory. Nothing
    /// comes back when TypeScript support is off or no file was loaded.
    pub fn resolve_typescript_paths(
        &self,
        chain: Vec<TsConfig>,
        config_dir: &str,
        current_dir: &str,
    ) -> (r: Option<ResolvedPaths>)
        requires
            forall|i: int| 0 <= i < chain@.len() ==> tsconfig_wf(#[trigger] chain@[i]),
        ensures
            !spec_ts_enabled(*self) ==> r is None,
            chain@.len() == 0 ==> r is None,
            spec_ts_enabled(*self) && chain@.len() > 0 ==> match r {
                Option::Some(rp) => spec_resolve_tsconfig(
                    spec_fold_co(chain_models(chain@)),
                    config_dir@,
                    current_dir@,
                ) matches Option::Some(m) && rp_model(rp.paths@) == m.0 && rp.base_url@ == m.1,
                Option::None => spec_resolve_tsconfig(
                    spec_fold_co(chain_models(chain@)),
                    config_dir@,
                    current_dir@,
                ) is None,
            },
    {
        let enabled = match &self.typescript {
            Option::Some(TypeScriptConfig::Boolean(b)) => *b,
            Option::Some(TypeScriptConfig::Object { .. }) => true,
            Option::None => false,
        };
        if !enabled {
            return None;
        }
        let mut rest = chain;
        if rest.len() == 0 {
            return None;
        }
        let ghost models = chain_models(rest@);
        let ghost total = models.len();
        let ghost chain0 = rest@;
        let mut merged = rest.remove(0);
        let mut taken: usize = 1;
        proof {
            assert(models.subrange(0, 1) =~= seq![models[0]]);
            assert(spec_fold_co(models.subrange(0, 1)) == models[0]);
            assert(forall|i: int| 0 <= i < rest@.len() ==> rest@[i] == chain0[i + 1]);
        }
        while rest.len() > 0
            invariant
                taken + rest@.len() == total,
                total <= usize::MAX,
                models.len() == total,
                1 <= taken <= total,
                tsconfig_wf(merged),
                forall|i: int| 0 <= i < rest@.len() ==> tsconfig_wf(#[trigger] rest@[i]),
                forall|i: int| 0 <= i < rest@.len() ==> co_model((#[trigger] rest@[i]).compiler_options)
                    == models[taken + i],
                co_model(merged.compiler_options) == spec_fold_co(models.subrange(0, taken as int)),
            decreases rest@.len(),
        {
            let next = rest.remove(0);
            let ghost t0 = taken as int;
            merged = merge_tsconfig(merged, next);
            taken = taken + 1;
            proof {
                assert(models.subrange(0, t0 + 1).subrange(0, t0) =~~= models.subrange(0, t0));
                assert(models.subrange(0, t0 + 1)[t0] == models[t0]);
            }
        }
        proof {
            assert(models.subrange(0, taken as int) =~= models);
        }
        self.resolve_tsconfig_paths(&merged, config_dir, current_dir)
    }
}

/// The file an `extends` link points to, resolved beside the current file.
pub fn next_config_request(cfg: &TsConfig, dir: &str) -> (r: Option<String>)
    ensures
        match cfg.extends {
            Option::Some(e) => r matches Option::Some(p) && p@ == path_join_spec(dir@, e@),
            Option::None => r is None,
        },
{
    match &cfg.extends {
        Option::Some(e) => {
            let d = to_chars(dir);
            let ec = to_chars(e.as_str());
            let joined = path_join(&d, &ec);
            Some(chars_to_string(&joined))
        },
        Option::None => None,
    }
}

} // verus!
