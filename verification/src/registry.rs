//! Remote component definitions and the decisions around fetching them:
//! index and component URL construction, the registry probe order, and
//! query matching over an index.
use vstd::prelude::*;

use crate::text::{
    chars_to_string, find_first, has_sub, replace_all, replace_all_spec, starts_with_chars,
    starts_with_spec, str_eq, strip_suffix_all, strip_suffix_all_spec, to_chars,
};

verus! {

/// A component definition fetched from a registry.
#[derive(Debug, Clone)]
pub struct Component {
    pub schema: Option<String>,
    pub name: String,
    pub component_type: Option<String>,
    pub dependencies: Option<Vec<String>>,
    pub dev_dependencies: Option<Vec<String>>,
    pub registry_dependencies: Option<Vec<String>>,
    pub files: Vec<ComponentFile>,
    pub registry: Option<String>,
}

/// One file of a component definition; the target path comes under either
/// of two legacy field names.
#[derive(Debug, Clone)]
pub struct ComponentFile {
    pub content: String,
    pub file_type: Option<String>,
    pub target: Option<String>,
    pub path: Option<String>,
}

/// A component's entry in a registry index.
#[derive(Debug, Clone)]
pub struct ComponentInfo {
    pub name: String,
    pub component_type: Option<String>,
    pub dependencies: Option<Vec<String>>,
    pub registry_dependencies: Option<Vec<String>>,
    pub dev_dependencies: Option<Vec<String>>,
    pub relative_url: Option<String>,
}

/// A registry index in either accepted shape: a plain list of entries, or a
/// table keyed by component name.
#[derive(Debug, Clone)]
pub enum RegistryIndex {
    Array(Vec<ComponentInfo>),
    Object(Vec<(String, ComponentInfo)>),
}

/// The declared target path of a component file: the `target` field when it
/// is present and non-empty, else the `path` field under the same rule,
/// else empty.
pub open spec fn spec_target_path(f: ComponentFile) -> Seq<char> {
    match f.target {
        Option::Some(t) => if t@.len() > 0 {
            t@
        } else {
            match f.path {
                Option::Some(p) => if p@.len() > 0 {
                    p@
                } else {
                    Seq::empty()
                },
                Option::None => Seq::empty(),
            }
        },
        Option::None => match f.path {
            Option::Some(p) => if p@.len() > 0 {
                p@
            } else {
                Seq::empty()
            },
            Option::None => Seq::empty(),
        },
    }
}

impl ComponentFile {
    /// The path this file is to be written under, whichever legacy field
    /// declares it; the first non-empty declaration wins.
    pub fn get_target_path(&self) -> (r: String)
        ensures
            r@ == spec_target_path(*self),
    {
        match &self.target {
            Option::Some(t) => {
                if !t.as_str().is_empty() {
                    return t.clone();
                }
            },
            Option::None => {},
        }
        match &self.path {
            Option::Some(p) => {
                if !p.as_str().is_empty() {
                    return p.clone();
                }
            },
            Option::None => {},
        }
        String::new()
    }
}

/// The entries of an index, in declaration order, whichever shape it takes.
pub open spec fn spec_index_entries(ix: RegistryIndex) -> Seq<ComponentInfo> {
    match ix {
        RegistryIndex::Array(v) => v@,
        RegistryIndex::Object(m) => Seq::new(m@.len(), |i: int| m@[i].1),
    }
}

impl RegistryIndex {
    /// The entries of the index as a list, whichever shape it came in.
    pub fn to_vec(self) -> (r: Vec<ComponentInfo>)
        ensures
            r@ == spec_index_entries(self),
    {
        match self {
            RegistryIndex::Array(v) => v,
            RegistryIndex::Object(m) => {
                let ghost m0 = m@;
                let mut m = m;
                let total = m.len();
                let mut r: Vec<ComponentInfo> = Vec::new();
                let mut taken: usize = 0;
                while m.len() > 0
                    invariant
                        taken + m@.len() == m0.len(),
                        taken <= m0.len(),
                        m0.len() == total,
                        forall|i: int| 0 <= i < m@.len() ==> m@[i] == m0[taken + i],
                        r@.len() == taken,
                        forall|i: int| 0 <= i < taken ==> r@[i] == m0[i].1,
                    decreases m@.len(),
                {
                    let e = m.remove(0);
                    r.push(e.1);
                    taken = taken + 1;
                }
                proof {
                    assert(r@ =~= Seq::new(m0.len(), |i: int| m0[i].1));
                }
                r
            },
        }
    }

    /// Borrow the entries of the index as a list.
    pub fn as_slice(&self) -> (r: Vec<&ComponentInfo>)
        ensures
            r@.len() == spec_index_entries(*self).len(),
            forall|i: int| 0 <= i < r@.len() ==> *(#[trigger] r@[i]) == spec_index_entries(
                *self,
            )[i],
    {
        match self {
            RegistryIndex::Array(v) => {
                let mut r: Vec<&ComponentInfo> = Vec::new();
                let mut i: usize = 0;
                while i < v.len()
                    invariant
                        v.len() == v@.len(),
                        i <= v@.len(),
                        r@.len() == i,
                        forall|j: int| 0 <= j < i ==> *(#[trigger] r@[j]) == v@[j],
                    decreases v@.len() - i,
                {
                    r.push(&v[i]);
                    i = i + 1;
                }
                r
            },
            RegistryIndex::Object(m) => {
                let mut r: Vec<&ComponentInfo> = Vec::new();
                let mut i: usize = 0;
                while i < m.len()
                    invariant
                        m.len() == m@.len(),
                        i <= m@.len(),
                        r@.len() == i,
                        forall|j: int| 0 <= j < i ==> *(#[trigger] r@[j]) == m@[j].1,
                    decreases m@.len() - i,
                {
                    r.push(&m[i].1);
                    i = i + 1;
                }
                r
            },
        }
    }

    /// Whether the index lists no components.
    pub fn is_empty(&self) -> (r: bool)
        ensures
            r == (spec_index_entries(*self).len() == 0),
    {
        match self {
            RegistryIndex::Array(v) => v.len() == 0,
            RegistryIndex::Object(m) => m.len() == 0,
        }
    }

    /// How many components the index lists.
    pub fn len(&self) -> (r: usize)
        ensures
            r == spec_index_entries(*self).len(),
    {
        match self {
            RegistryIndex::Array(v) => v.len(),
            RegistryIndex::Object(m) => m.len(),
        }
    }
}

/// The URL a component is fetched from: the template with the name filled
/// in, and the style when one is configured.
pub open spec fn spec_component_url(
    template: Seq<char>,
    name: Seq<char>,
    style: Option<Seq<char>>,
) -> Seq<char> {
    let with_name = replace_all_spec(template, "{name}"@, name);
    match style {
        Option::Some(st) => replace_all_spec(with_name, "{style}"@, st),
        Option::None => with_name,
    }
}

/// Fill a registry URL template in for one component.
pub fn component_url(template: &str, name: &str, style: Option<&String>) -> (r: String)
    ensures
        r@ == spec_component_url(template@, name@, match style {
            Option::Some(s) => Option::Some(s@),
            Option::None => Option::None,
        }),
{
    let t = to_chars(template);
    let n = to_chars(name);
    let name_pat = to_chars("{name}");
    let with_name = replace_all(&t, &name_pat, &n);
    match style {
        Option::Some(st) => {
            let style_pat = to_chars("{style}");
            let sv = to_chars(st.as_str());
            let done = replace_all(&with_name, &style_pat, &sv);
            chars_to_string(&done)
        },
        Option::None => chars_to_string(&with_name),
    }
}

/// The probe order over configured namespaces: any entry named `default`,
/// then any named `@default`, then the rest in table order.
pub open spec fn spec_probe_order(ns: Seq<Seq<char>>) -> Seq<Seq<char>> {
    let d1 = if ns.contains("default"@) {
        seq!["default"@]
    } else {
        Seq::empty()
    };
    let d2 = if ns.contains("@default"@) {
        seq!["@default"@]
    } else {
        Seq::empty()
    };
    d1 + d2 + ns.filter(|x: Seq<char>| x != "default"@ && x != "@default"@)
}

/// Order the configured namespaces for probing: the default namespaces
/// first, then the others as configured.
pub fn fetch_probe_order(namespaces: &Vec<String>) -> (r: Vec<String>)
    ensures
        r.deep_view() == spec_probe_order(namespaces.deep_view()),
{
    let ghost nsv = namespaces.deep_view();
    let mut has_default: bool = false;
    let mut has_at_default: bool = false;
    let mut rest: Vec<String> = Vec::new();
    let mut i: usize = 0;
    proof {
        assert(nsv.subrange(0, 0) =~= Seq::<Seq<char>>::empty());
        assert(Seq::<Seq<char>>::empty().filter(
            |x: Seq<char>| x != "default"@ && x != "@default"@,
        ) =~= Seq::<Seq<char>>::empty());
        assert(rest.deep_view() =~~= Seq::<Seq<char>>::empty());
    }
    while i < namespaces.len()
        invariant
            namespaces.len() == nsv.len(),
            nsv == namespaces.deep_view(),
            i <= nsv.len(),
            has_default == nsv.subrange(0, i as int).contains("default"@),
            has_at_default == nsv.subrange(0, i as int).contains("@default"@),
            rest.deep_view() == nsv.subrange(0, i as int).filter(
                |x: Seq<char>| x != "default"@ && x != "@default"@,
            ),
        decreases nsv.len() - i,
    {
        let ghost pre = nsv.subrange(0, i as int);
        let ghost cur = nsv.subrange(0, i + 1);
        proof {
            assert(cur.drop_last() =~= pre);
            assert(cur.last() == nsv[i as int]);
            assert(namespaces@[i as int].deep_view() =~= namespaces@[i as int]@);
            reveal(Seq::filter);
            reveal_strlit("default");
            reveal_strlit("@default");
            assert("default"@.len() == 7 && "@default"@.len() == 8);
        }
        if str_eq(namespaces[i].as_str(), "default") {
            has_default = true;
            proof {
                assert(cur.contains("default"@)) by {
                    assert(cur[i as int] == "default"@);
                }
                assert(cur.contains("@default"@) == pre.contains("@default"@)) by {
                    lemma_contains_step(pre, nsv[i as int], "@default"@);
                }
            }
        } else if str_eq(namespaces[i].as_str(), "@default") {
            has_at_default = true;
            proof {
                assert(cur.contains("@default"@)) by {
                    assert(cur[i as int] == "@default"@);
                }
                assert(cur.contains("default"@) == pre.contains("default"@)) by {
                    lemma_contains_step(pre, nsv[i as int], "default"@);
                }
            }
        } else {
            let ghost r0 = rest.deep_view();
            rest.push(namespaces[i].clone());
            proof {
                assert(rest.deep_view() =~~= r0.push(nsv[i as int]));
                assert(cur.contains("default"@) == pre.contains("default"@)) by {
                    lemma_contains_step(pre, nsv[i as int], "default"@);
                }
                assert(cur.contains("@default"@) == pre.contains("@default"@)) by {
                    lemma_contains_step(pre, nsv[i as int], "@default"@);
                }
            }
        }
        i = i + 1;
    }
    proof {
        assert(nsv.subrange(0, i as int) =~= nsv);
    }
    let mut r: Vec<String> = Vec::new();
    if has_default {
        r.push("default".to_owned());
    }
    if has_at_default {
        r.push("@default".to_owned());
    }
    let mut j: usize = 0;
    let ghost head = r.deep_view();
    let ghost restv = rest.deep_view();
    while j < rest.len()
        invariant
            rest.len() == restv.len(),
            restv == rest.deep_view(),
            j <= restv.len(),
            r.deep_view() == head + restv.subrange(0, j as int),
        decreases restv.len() - j,
    {
        let ghost r0 = r.deep_view();
        r.push(rest[j].clone());
        j = j + 1;
        proof {
            assert(rest@[j - 1].deep_view() =~= rest@[j - 1]@);
            assert(r.deep_view() =~~= r0.push(restv[j - 1]));
            assert(r0.push(restv[j - 1]) =~~= head + restv.subrange(0, j as int));
        }
    }
    proof {
        assert(restv.subrange(0, j as int) =~= restv);
        assert(r.deep_view() =~~= spec_probe_order(nsv));
    }
    r
}

proof fn lemma_contains_step(pre: Seq<Seq<char>>, x: Seq<char>, k: Seq<char>)
    requires
        x != k,
    ensures
        pre.push(x).contains(k) == pre.contains(k),
{
    let cur = pre.push(x);
    if pre.contains(k) {
        let i = choose|i: int| 0 <= i < pre.len() && pre[i] == k;
        assert(cur[i] == k);
    }
    if cur.contains(k) {
        let i = choose|i: int| 0 <= i < cur.len() && cur[i] == k;
        if i < pre.len() {
            assert(pre[i] == k);
        }
    }
}

/// What a registry's text yields when lowercased; the result depends on the
/// characters alone.
pub uninterp spec fn lower_of(s: Seq<char>) -> Seq<char>;

/// Relies on str::to_lowercase: the lowercase form of a name or query, a
/// function of the characters alone; an empty text stays empty.
#[verifier::external_body]
fn lowercase(s: &str) -> (r: String)
    ensures
        r@ == lower_of(s@),
        s@.len() == 0 ==> r@.len() == 0,
{
    s.to_lowercase()
}

/// Whether an index entry matches a search query: the lowercased name, or
/// the lowercased category when one is declared, contains the lowercased
/// query.
pub open spec fn spec_search_match(e: ComponentInfo, q: Seq<char>) -> bool {
    has_sub(lower_of(e.name@), lower_of(q)) || match e.component_type {
        Option::Some(t) => has_sub(lower_of(t@), lower_of(q)),
        Option::None => false,
    }
}

/// The positions of the index entries that match a search query, in order.
pub fn search_matches(entries: &Vec<ComponentInfo>, query: &str) -> (r: Vec<usize>)
    ensures
        forall|a: int, b: int| 0 <= a < b < r@.len() ==> r@[a] < r@[b],
        forall|a: int| 0 <= a < r@.len() ==> (#[trigger] r@[a]) < entries@.len(),
        forall|i: int|
            0 <= i < entries@.len() ==> (r@.contains(i as usize) <==> spec_search_match(
                #[trigger] entries@[i],
                query@,
            )),
{
    let q = lowercase(query);
    let qc = to_chars(q.as_str());
    let mut r: Vec<usize> = Vec::new();
    let mut i: usize = 0;
    while i < entries.len()
        invariant
            entries.len() == entries@.len(),
            qc@ == lower_of(query@),
            i <= entries@.len(),
            forall|a: int, b: int| 0 <= a < b < r@.len() ==> r@[a] < r@[b],
            forall|a: int| 0 <= a < r@.len() ==> (#[trigger] r@[a]) < i,
            forall|j: int|
                0 <= j < i ==> (r@.contains(j as usize) <==> spec_search_match(
                    #[trigger] entries@[j],
                    query@,
                )),
        decreases entries@.len() - i,
    {
        let ghost r0 = r@;
        let name_l = lowercase(entries[i].name.as_str());
        let nc = to_chars(name_l.as_str());
        let mut hit: bool = find_first(&nc, &qc).is_some();
        if !hit {
            match &entries[i].component_type {
                Option::Some(t) => {
                    let tl = lowercase(t.as_str());
                    let tc = to_chars(tl.as_str());
                    hit = find_first(&tc, &qc).is_some();
                },
                Option::None => {},
            }
        }
        if hit {
            r.push(i);
            proof {
                assert(r@ == r0.push(i as usize));
                assert forall|j: int|
                    0 <= j < i + 1 implies (r@.contains(j as usize) <==> spec_search_match(
                    #[trigger] entries@[j],
                    query@,
                )) by {
                    if j < i {
                        assert(r0.contains(j as usize) <==> spec_search_match(
                            entries@[j],
                            query@,
                        ));
                        if r0.contains(j as usize) {
                            let a = choose|a: int| 0 <= a < r0.len() && r0[a] == j as usize;
                            assert(r@[a] == j as usize);
                        }
                        if r@.contains(j as usize) {
                            let a = choose|a: int| 0 <= a < r@.len() && r@[a] == j as usize;
                            assert(a < r@.len() - 1 ==> r0[a] == j as usize);
                            assert(a == r@.len() - 1 ==> r@[a] == i as usize);
                        }
                    } else {
                        assert(r@[r@.len() - 1] == i as usize);
                        assert(r@.contains(i as usize));
                    }
                }
            }
        } else {
            proof {
                assert forall|j: int|
                    0 <= j < i + 1 implies (r@.contains(j as usize) <==> spec_search_match(
                    #[trigger] entries@[j],
                    query@,
                )) by {
                    if j == i {
                        if r@.contains(i as usize) {
                            let a = choose|a: int| 0 <= a < r@.len() && r@[a] == i as usize;
                            assert(r@[a] < i);
                        }
                    }
                }
            }
        }
        i = i + 1;
    }
    r
}


/// The style placeholder filled into one index-URL candidate; the main
/// shadcn index endpoint is left untouched.
pub open spec fn spec_apply_style(u: Seq<char>, style: Option<Seq<char>>) -> Seq<char> {
    match style {
        Option::None => u,
        Option::Some(st) => if starts_with_spec(u, "https://ui.shadcn.com/r/index.json"@) {
            u
        } else {
            replace_all_spec(u, "{style}"@, st)
        },
    }
}

/// The index endpoints to try for a registry, in probe order: the known
/// shadcn index for its own host; a style-templated index; and the common
/// index patterns derived from the component URL template.
pub open spec fn spec_index_url_candidates(url: Seq<char>, style: Option<Seq<char>>) -> Seq<
    Seq<char>,
> {
    let shadcn = has_sub(url, "ui.shadcn.com"@);
    let trimmed = strip_suffix_all_spec(url, "/"@);
    let head: Seq<Seq<char>> = (if shadcn {
        seq!["https://ui.shadcn.com/r/index.json"@]
    } else {
        Seq::empty()
    }) + (if has_sub(url, "{style}"@) && !shadcn {
        seq![replace_all_spec(url, "{name}"@, "index"@)]
    } else {
        Seq::empty()
    }) + seq![
        replace_all_spec(url, "{name}"@, "index"@),
        replace_all_spec(trimmed + "/index.json"@, "/{name}.json"@, Seq::empty()),
        replace_all_spec(trimmed + "/registry/index.json"@, "/{name}.json"@, Seq::empty()),
    ];
    Seq::new(head.len(), |i: int| spec_apply_style(head[i], style))
}

fn apply_style(u: &Vec<char>, style: Option<&String>) -> (r: Vec<char>)
    ensures
        r@ == spec_apply_style(u@, match style {
            Option::Some(s) => Option::Some(s@),
            Option::None => Option::None,
        }),
{
    match style {
        Option::None => crate::text::subrange_chars(u, 0, u.len()),
        Option::Some(st) => {
            let prefix = to_chars("https://ui.shadcn.com/r/index.json");
            if starts_with_chars(u, &prefix) {
                crate::text::subrange_chars(u, 0, u.len())
            } else {
                let pat = to_chars("{style}");
                let sv = to_chars(st.as_str());
                replace_all(u, &pat, &sv)
            }
        },
    }
}

/// The ordered index endpoints to probe for one registry.
pub fn index_url_candidates(url: &str, style: Option<&String>) -> (r: Vec<String>)
    ensures
        r.deep_view() == spec_index_url_candidates(url@, match style {
            Option::Some(s) => Option::Some(s@),
            Option::None => Option::None,
        }),
{
    let uc = to_chars(url);
    let shadcn_marker = to_chars("ui.shadcn.com");
    let style_marker = to_chars("{style}");
    let name_pat = to_chars("{name}");
    let index_rep = to_chars("index");
    let name_json_pat = to_chars("/{name}.json");
    let empty_rep: Vec<char> = Vec::new();
    let slash = to_chars("/");
    let shadcn = find_first(&uc, &shadcn_marker).is_some();
    let styled = find_first(&uc, &style_marker).is_some();
    let trimmed = strip_suffix_all(&uc, &slash);
    let mut out: Vec<String> = Vec::new();
    if shadcn {
        let c = apply_style(&to_chars("https://ui.shadcn.com/r/index.json"), style);
        out.push(chars_to_string(&c));
    }
    if styled && !shadcn {
        let c0 = replace_all(&uc, &name_pat, &index_rep);
        let c = apply_style(&c0, style);
        out.push(chars_to_string(&c));
    }
    let c0 = replace_all(&uc, &name_pat, &index_rep);
    let c = apply_style(&c0, style);
    out.push(chars_to_string(&c));
    let mut t1 = crate::text::subrange_chars(&trimmed, 0, trimmed.len());
    crate::text::append_chars(&mut t1, &to_chars("/index.json"));
    let c1 = replace_all(&t1, &name_json_pat, &empty_rep);
    let c = apply_style(&c1, style);
    out.push(chars_to_string(&c));
    let mut t2 = crate::text::subrange_chars(&trimmed, 0, trimmed.len());
    crate::text::append_chars(&mut t2, &to_chars("/registry/index.json"));
    let c2 = replace_all(&t2, &name_json_pat, &empty_rep);
    let c = apply_style(&c2, style);
    out.push(chars_to_string(&c));
    proof {
        let stv = match style {
            Option::Some(s) => Option::Some(s@),
            Option::None => Option::None,
        };
        let spec_out = spec_index_url_candidates(url@, stv);
        assert(empty_rep@ =~= Seq::<char>::empty());
        assert(trimmed@.subrange(0, trimmed@.len() as int) =~= trimmed@);
        assert(forall|k: int| 0 <= k < out@.len() ==> out.deep_view()[k] == out@[k].deep_view());
        assert(forall|k: int| 0 <= k < out@.len() ==> out@[k].deep_view() =~= out@[k]@);
        if shadcn {
            assert(out@.len() == 4 && spec_out.len() == 4);
            assert(out.deep_view()[0] =~= spec_out[0]);
            assert(out.deep_view()[1] =~= spec_out[1]);
            assert(out.deep_view()[2] =~= spec_out[2]);
            assert(out.deep_view()[3] =~= spec_out[3]);
        } else if styled {
            assert(out@.len() == 4 && spec_out.len() == 4);
            assert(out.deep_view()[0] =~= spec_out[0]);
            assert(out.deep_view()[1] =~= spec_out[1]);
            assert(out.deep_view()[2] =~= spec_out[2]);
            assert(out.deep_view()[3] =~= spec_out[3]);
        } else {
            assert(out@.len() == 3 && spec_out.len() == 3);
            assert(out.deep_view()[0] =~= spec_out[0]);
            assert(out.deep_view()[1] =~= spec_out[1]);
            assert(out.deep_view()[2] =~= spec_out[2]);
        }
        assert(out.deep_view() =~~= spec_out);
    }
    out
}


/// The selection menu's category of an index entry: ui, block, hook,
/// library, or the catch-all bucket.
pub open spec fn spec_category_of(e: ComponentInfo) -> int {
    match e.component_type {
        Option::Some(t) => if t@ == "registry:ui"@ {
            0
        } else if t@ == "registry:block"@ {
            1
        } else if t@ == "registry:hook"@ {
            2
        } else if t@ == "registry:lib"@ {
            3
        } else {
            4
        },
        Option::None => 4,
    }
}

/// Bucket the index entries by declared category for the selection menu:
/// five buckets, in the fixed menu order, each holding the positions of its
/// entries in index order.
pub fn bucket_by_category(entries: &Vec<ComponentInfo>) -> (r: Vec<Vec<usize>>)
    ensures
        r@.len() == 5,
        forall|b: int, k: int|
            0 <= b < 5 && 0 <= k < (#[trigger] r@[b])@.len() ==> (#[trigger] r@[b]@[k])
                < entries@.len() && spec_category_of(entries@[r@[b]@[k] as int]) == b,
        forall|b: int, k1: int, k2: int|
            0 <= b < 5 && 0 <= k1 < k2 < r@[b]@.len() ==> #[trigger] r@[b]@[k1] < #[trigger] r@[b]@[k2],
        forall|i: int|
            0 <= i < entries@.len() ==> (#[trigger] r@[spec_category_of(entries@[i])])@.contains(
                i as usize,
            ),
{
    proof {
        reveal_strlit("registry:ui");
        reveal_strlit("registry:block");
        reveal_strlit("registry:hook");
        reveal_strlit("registry:lib");
    }
    let mut ui: Vec<usize> = Vec::new();
    let mut blocks: Vec<usize> = Vec::new();
    let mut hooks: Vec<usize> = Vec::new();
    let mut libs: Vec<usize> = Vec::new();
    let mut other: Vec<usize> = Vec::new();
    let mut i: usize = 0;
    while i < entries.len()
        invariant
            entries.len() == entries@.len(),
            i <= entries@.len(),
            forall|k: int| 0 <= k < ui@.len() ==> (#[trigger] ui@[k]) < i && spec_category_of(
                entries@[ui@[k] as int],
            ) == 0,
            forall|k: int|
                0 <= k < blocks@.len() ==> (#[trigger] blocks@[k]) < i && spec_category_of(
                    entries@[blocks@[k] as int],
                ) == 1,
            forall|k: int|
                0 <= k < hooks@.len() ==> (#[trigger] hooks@[k]) < i && spec_category_of(
                    entries@[hooks@[k] as int],
                ) == 2,
            forall|k: int| 0 <= k < libs@.len() ==> (#[trigger] libs@[k]) < i && spec_category_of(
                entries@[libs@[k] as int],
            ) == 3,
            forall|k: int|
                0 <= k < other@.len() ==> (#[trigger] other@[k]) < i && spec_category_of(
                    entries@[other@[k] as int],
                ) == 4,
            forall|k1: int, k2: int| 0 <= k1 < k2 < ui@.len() ==> ui@[k1] < ui@[k2],
            forall|k1: int, k2: int| 0 <= k1 < k2 < blocks@.len() ==> blocks@[k1] < blocks@[k2],
            forall|k1: int, k2: int| 0 <= k1 < k2 < hooks@.len() ==> hooks@[k1] < hooks@[k2],
            forall|k1: int, k2: int| 0 <= k1 < k2 < libs@.len() ==> libs@[k1] < libs@[k2],
            forall|k1: int, k2: int| 0 <= k1 < k2 < other@.len() ==> other@[k1] < other@[k2],
            forall|j: int|
                0 <= j < i ==> (if spec_category_of(#[trigger] entries@[j]) == 0 {
                    ui@
                } else if spec_category_of(entries@[j]) == 1 {
                    blocks@
                } else if spec_category_of(entries@[j]) == 2 {
                    hooks@
                } else if spec_category_of(entries@[j]) == 3 {
                    libs@
                } else {
                    other@
                }).contains(j as usize),
        decreases entries@.len() - i,
    {
        let ghost u0 = ui@;
        let ghost b0 = blocks@;
        let ghost h0 = hooks@;
        let ghost l0 = libs@;
        let ghost o0 = other@;
        match &entries[i].component_type {
            Option::Some(t) => {
                if str_eq(t.as_str(), "registry:ui") {
                    ui.push(i);
                } else if str_eq(t.as_str(), "registry:block") {
                    blocks.push(i);
                } else if str_eq(t.as_str(), "registry:hook") {
                    hooks.push(i);
                } else if str_eq(t.as_str(), "registry:lib") {
                    libs.push(i);
                } else {
                    other.push(i);
                }
            },
            Option::None => {
                other.push(i);
            },
        }
        proof {
            assert(ui@ == u0 || ui@ == u0.push(i as usize));
            assert forall|j: int|
                0 <= j < i + 1 implies (if spec_category_of(#[trigger] entries@[j]) == 0 {
                ui@
            } else if spec_category_of(entries@[j]) == 1 {
                blocks@
            } else if spec_category_of(entries@[j]) == 2 {
                hooks@
            } else if spec_category_of(entries@[j]) == 3 {
                libs@
            } else {
                other@
            }).contains(j as usize) by {
                if j < i {
                    let old_bucket = if spec_category_of(entries@[j]) == 0 {
                        u0
                    } else if spec_category_of(entries@[j]) == 1 {
                        b0
                    } else if spec_category_of(entries@[j]) == 2 {
                        h0
                    } else if spec_category_of(entries@[j]) == 3 {
                        l0
                    } else {
                        o0
                    };
                    assert(old_bucket.contains(j as usize));
                    let k = choose|k: int| 0 <= k < old_bucket.len() && old_bucket[k] == j as usize;
                    let new_bucket = if spec_category_of(entries@[j]) == 0 {
                        ui@
                    } else if spec_category_of(entries@[j]) == 1 {
                        blocks@
                    } else if spec_category_of(entries@[j]) == 2 {
                        hooks@
                    } else if spec_category_of(entries@[j]) == 3 {
                        libs@
                    } else {
                        other@
                    };
                    assert(new_bucket[k] == j as usize);
                } else {
                    let new_bucket = if spec_category_of(entries@[j]) == 0 {
                        ui@
                    } else if spec_category_of(entries@[j]) == 1 {
                        blocks@
                    } else if spec_category_of(entries@[j]) == 2 {
                        hooks@
                    } else if spec_category_of(entries@[j]) == 3 {
                        libs@
                    } else {
                        other@
                    };
                    assert(new_bucket[new_bucket.len() - 1] == j as usize);
                }
            }
        }
        i = i + 1;
    }
    let mut r: Vec<Vec<usize>> = Vec::new();
    r.push(ui);
    r.push(blocks);
    r.push(hooks);
    r.push(libs);
    r.push(other);
    r
}

} // verus!
