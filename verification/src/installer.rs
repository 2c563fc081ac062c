//! The installer's decision core: alias selection, target-path resolution,
//! placeholder substitution, staleness comparison, and the plans that the
//! surrounding program executes against the filesystem and the registries.
use vstd::prelude::*;

use crate::config::{
    opt_view, rp_model, spec_ts_enabled, AliasesConfig, Config, ResolvedPaths,
};
use crate::package_manager::{Detection, PackageManager};
use crate::placeholder::{strip_js_extensions, strip_js_spec};
use crate::registry::{spec_target_path, Component};
use crate::text::{
    append_chars, chars_to_string, ends_with_chars, ends_with_spec, find_first, has_sub,
    normalize_chars, normalize_spec, replace_all, replace_all_spec, starts_with_chars,
    starts_with_spec, str_eq, subrange_chars, to_chars,
};

verus! {

/// What an install call knows of the component being placed.
#[derive(Debug, Clone)]
pub struct ComponentContext {
    pub name: String,
    pub component_type: Option<String>,
    pub registry: Option<String>,
}

/// The package-ecosystem dependencies a component declares.
#[derive(Debug, Clone)]
pub struct ComponentDependencies {
    pub dependencies: Vec<String>,
    pub dev_dependencies: Vec<String>,
}

/// One planned file write.
#[derive(Debug, Clone)]
pub struct FileWrite {
    pub path: String,
    pub content: String,
}

/// Why an install call stops.
#[derive(Debug, Clone, PartialEq)]
pub enum InstallError {
    AlreadyExists(String),
    NotFound(String),
}

/// The installer: the resolved configuration, the resolved path-mapping
/// table, and the detected package manager, all fixed at construction.
pub struct ComponentInstaller {
    pub config: Config,
    pub typescript_paths: Option<ResolvedPaths>,
    pub package_manager: Option<Detection>,
}

/// The resolved alias table, at view level, when one was resolved.
pub open spec fn ts_table(o: Option<ResolvedPaths>) -> Option<Seq<(Seq<char>, Seq<char>)>> {
    match o {
        Option::Some(rp) => Option::Some(rp_model(rp.paths@)),
        Option::None => Option::None,
    }
}

/// The alias root a component category selects: hooks, ui and lib fall back
/// to the generic components alias when unset, utilities always use the
/// utils alias, and anything else uses the components alias.
pub open spec fn spec_alias_for(a: AliasesConfig, t: Option<Seq<char>>) -> Seq<char> {
    if t == Option::Some("registry:hook"@) {
        match a.hooks {
            Option::Some(h) => h@,
            Option::None => a.components@,
        }
    } else if t == Option::Some("registry:ui"@) {
        match a.ui {
            Option::Some(u) => u@,
            Option::None => a.components@,
        }
    } else if t == Option::Some("registry:util"@) {
        a.utils@
    } else if t == Option::Some("registry:lib"@) {
        match a.lib {
            Option::Some(l) => l@,
            Option::None => a.components@,
        }
    } else {
        a.components@
    }
}

/// The first table entry whose alias is a prefix of the path.
pub open spec fn first_prefix_match(
    tab: Seq<(Seq<char>, Seq<char>)>,
    p: Seq<char>,
) -> Option<(Seq<char>, Seq<char>)>
    decreases tab.len(),
{
    if tab.len() == 0 {
        Option::None
    } else if starts_with_spec(p, tab[0].0) {
        Option::Some(tab[0])
    } else {
        first_prefix_match(tab.subrange(1, tab.len() as int), p)
    }
}

/// The text with every leading separator removed.
pub open spec fn skip_slashes(s: Seq<char>) -> Seq<char>
    decreases s.len(),
{
    if s.len() > 0 && s[0] == '/' {
        skip_slashes(s.subrange(1, s.len() as int))
    } else {
        s
    }
}

proof fn lemma_skip_slashes_at(s: Seq<char>, a: int)
    requires
        0 <= a <= s.len(),
        forall|j: int| 0 <= j < a ==> s[j] == '/',
        a == s.len() || s[a] != '/',
    ensures
        skip_slashes(s) == s.subrange(a, s.len() as int),
    decreases a,
{
    if a == 0 {
        assert(s.subrange(0, s.len() as int) =~= s);
    } else {
        let suf = s.subrange(1, s.len() as int);
        lemma_skip_slashes_at(suf, a - 1);
        assert(suf.subrange(a - 1, suf.len() as int) =~= s.subrange(a, s.len() as int));
    }
}

/// Manual alias resolution, when no path-mapping file stands: a literal
/// `$lib` token is replaced by the configured library alias, or its
/// conventional default; any other alias passes through untouched.
pub open spec fn spec_manual_resolve(lib: Option<Seq<char>>, p: Seq<char>) -> Seq<char> {
    if has_sub(p, "$lib"@) {
        match lib {
            Option::Some(l) => replace_all_spec(p, "$lib"@, l),
            Option::None => replace_all_spec(p, "$lib"@, "src/lib"@),
        }
    } else {
        p
    }
}

/// Alias resolution through the path-mapping table: the first alias that
/// prefixes the path is swapped for its target, the remainder joined under
/// it; a path no alias prefixes falls back to manual resolution.
pub open spec fn spec_ts_path_resolve(
    tab: Seq<(Seq<char>, Seq<char>)>,
    p: Seq<char>,
    lib: Option<Seq<char>>,
) -> Seq<char> {
    match first_prefix_match(tab, p) {
        Option::Some(kv) => {
            let rem = skip_slashes(p.subrange(kv.0.len() as int, p.len() as int));
            if rem.len() == 0 {
                kv.1
            } else {
                kv.1 + "/"@ + rem
            }
        },
        Option::None => spec_manual_resolve(lib, p),
    }
}

/// The filesystem root an alias resolves to, with or without a resolved
/// path-mapping table.
pub open spec fn spec_alias_root(
    a: AliasesConfig,
    ts: Option<Seq<(Seq<char>, Seq<char>)>>,
    alias: Seq<char>,
) -> Seq<char> {
    match ts {
        Option::Some(tab) => spec_ts_path_resolve(tab, alias, opt_view(a.lib)),
        Option::None => spec_manual_resolve(opt_view(a.lib), alias),
    }
}

/// Where a declared component file lands: the category's alias root,
/// resolved, with the declared target under it; a ui-category file whose
/// target already leads with `ui/` while the root already ends in `/ui`
/// loses that duplicate segment.
pub open spec fn spec_resolve_file_path(
    a: AliasesConfig,
    ts: Option<Seq<(Seq<char>, Seq<char>)>>,
    t: Option<Seq<char>>,
    target: Seq<char>,
) -> Seq<char> {
    let resolved = spec_alias_root(a, ts, spec_alias_for(a, t));
    let nt = if t == Option::Some("registry:ui"@) && starts_with_spec(target, "ui/"@)
        && ends_with_spec(resolved, "/ui"@) {
        target.subrange(3, target.len() as int)
    } else {
        target
    };
    resolved + "/"@ + nt
}

impl ComponentInstaller {
    /// Build an installer over an already-resolved environment.
    pub fn new(
        config: Config,
        typescript_paths: Option<ResolvedPaths>,
        package_manager: Option<Detection>,
    ) -> (r: ComponentInstaller)
        ensures
            r.config == config,
            r.typescript_paths == typescript_paths,
            r.package_manager == package_manager,
    {
        ComponentInstaller { config, typescript_paths, package_manager }
    }

    /// The configuration the installer was built over.
    pub fn config(&self) -> (r: &Config)
        ensures
            *r == self.config,
    {
        &self.config
    }

    /// The alias root for a component category.
    pub fn get_alias_for_component_type(&self, component_type: Option<&str>) -> (r: &str)
        ensures
            r@ == spec_alias_for(self.config.aliases, match component_type {
                Option::Some(t) => Option::Some(t@),
                Option::None => Option::None,
            }),
    {
        proof {
            reveal_strlit("registry:hook");
            reveal_strlit("registry:ui");
            reveal_strlit("registry:util");
            reveal_strlit("registry:lib");
        }
        match component_type {
            Option::Some(t) => {
                if str_eq(t, "registry:hook") {
                    match &self.config.aliases.hooks {
                        Option::Some(h) => h.as_str(),
                        Option::None => self.config.aliases.components.as_str(),
                    }
                } else if str_eq(t, "registry:ui") {
                    match &self.config.aliases.ui {
                        Option::Some(u) => u.as_str(),
                        Option::None => self.config.aliases.components.as_str(),
                    }
                } else if str_eq(t, "registry:util") {
                    self.config.aliases.utils.as_str()
                } else if str_eq(t, "registry:lib") {
                    match &self.config.aliases.lib {
                        Option::Some(l) => l.as_str(),
                        Option::None => self.config.aliases.components.as_str(),
                    }
                } else {
                    self.config.aliases.components.as_str()
                }
            },
            Option::None => self.config.aliases.components.as_str(),
        }
    }

    /// The context an install call carries for a fetched component.
    pub fn create_component_context(&self, component: &Component) -> (r: ComponentContext)
        ensures
            r.name@ == component.name@,
            opt_view(r.component_type) == opt_view(component.component_type),
            opt_view(r.registry) == opt_view(component.registry),
    {
        ComponentContext {
            name: component.name.clone(),
            component_type: match &component.component_type {
                Option::Some(t) => Some(t.clone()),
                Option::None => None,
            },
            registry: match &component.registry {
                Option::Some(t) => Some(t.clone()),
                Option::None => None,
            },
        }
    }

    /// Resolve an alias root through the path-mapping table, falling back
    /// to manual resolution when no alias prefixes it.
    pub fn resolve_path_with_typescript(
        &self,
        ui_path: &str,
        ts_paths: &Vec<(String, String)>,
    ) -> (r: String)
        ensures
            r@ == spec_ts_path_resolve(rp_model(ts_paths@), ui_path@, opt_view(
                self.config.aliases.lib,
            )),
    {
        let ghost tab = rp_model(ts_paths@);
        let p = to_chars(ui_path);
        let mut i: usize = 0;
        proof {
            assert(tab.subrange(0, tab.len() as int) =~= tab);
        }
        while i < ts_paths.len()
            invariant
                ts_paths.len() == ts_paths@.len(),
                tab == rp_model(ts_paths@),
                tab.len() == ts_paths@.len(),
                i <= ts_paths@.len(),
                p@ == ui_path@,
                first_prefix_match(tab, p@) == first_prefix_match(
                    tab.subrange(i as int, tab.len() as int),
                    p@,
                ),
            decreases ts_paths@.len() - i,
        {
            let ghost rest = tab.subrange(i as int, tab.len() as int);
            let key = to_chars(ts_paths[i].0.as_str());
            proof {
                assert(rest[0] == tab[i as int]);
                assert(rest.subrange(1, rest.len() as int) =~= tab.subrange(
                    i + 1,
                    tab.len() as int,
                ));
            }
            if starts_with_chars(&p, &key) {
                let rem_start = key.len();
                let ghost a = rem_start as int;
                let mut j: usize = rem_start;
                while j < p.len() && p[j] == '/'
                    invariant
                        p.len() == p@.len(),
                        rem_start <= j <= p@.len(),
                        forall|m: int| rem_start <= m < j ==> p@[m] == '/',
                    decreases p@.len() - j,
                {
                    j = j + 1;
                }
                let ghost tail = p@.subrange(a, p@.len() as int);
                proof {
                    assert forall|m: int| 0 <= m < j - a implies tail[m] == '/' by {
                        assert(tail[m] == p@[a + m]);
                    }
                    if j < p@.len() {
                        assert(tail[j - a] == p@[j as int]);
                    }
                    lemma_skip_slashes_at(tail, j - a);
                    assert(tail.subrange(j - a, tail.len() as int) =~= p@.subrange(
                        j as int,
                        p@.len() as int,
                    ));
                }
                if j == p.len() {
                    proof {
                        assert(skip_slashes(tail) =~= Seq::<char>::empty());
                    }
                    return ts_paths[i].1.clone();
                }
                let mut out = to_chars(ts_paths[i].1.as_str());
                out.push('/');
                let rem = subrange_chars(&p, j, p.len());
                append_chars(&mut out, &rem);
                proof {
                    reveal_strlit("/");
                    assert("/"@ =~= seq!['/']);
                    assert(out@ =~= ts_paths@[i as int].1@ + "/"@ + skip_slashes(tail));
                }
                return chars_to_string(&out);
            }
            i = i + 1;
        }
        proof {
            assert(tab.subrange(i as int, tab.len() as int) =~= Seq::<(Seq<char>, Seq<char>)>::empty());
        }
        self.resolve_path_manually(ui_path)
    }

    /// Resolve an alias root without a path-mapping table.
    pub fn resolve_path_manually(&self, ui_path: &str) -> (r: String)
        ensures
            r@ == spec_manual_resolve(opt_view(self.config.aliases.lib), ui_path@),
    {
        let p = to_chars(ui_path);
        let lib_tok = to_chars("$lib");
        match find_first(&p, &lib_tok) {
            Option::Some(_) => {
                let rep: Vec<char> = match &self.config.aliases.lib {
                    Option::Some(l) => to_chars(l.as_str()),
                    Option::None => to_chars("src/lib"),
                };
                let done = replace_all(&p, &lib_tok, &rep);
                chars_to_string(&done)
            },
            Option::None => {
                let r = ui_path.to_owned();
                r
            },
        }
    }

    /// Where a component file's declared target lands on disk, relative to
    /// the working directory.
    pub fn resolve_file_path(&self, target: &str, context: &ComponentContext) -> (r: String)
        ensures
            r@ == spec_resolve_file_path(
                self.config.aliases,
                ts_table(self.typescript_paths),
                opt_view(context.component_type),
                target@,
            ),
    {
        let ctype: Option<&str> = match &context.component_type {
            Option::Some(t) => Some(t.as_str()),
            Option::None => None,
        };
        let alias_path = self.get_alias_for_component_type(ctype);
        let resolved: String = match &self.typescript_paths {
            Option::Some(tp) => self.resolve_path_with_typescript(alias_path, &tp.paths),
            Option::None => self.resolve_path_manually(alias_path),
        };
        let rc = to_chars(resolved.as_str());
        let tc = to_chars(target);
        let ui_prefix = to_chars("ui/");
        let ui_suffix = to_chars("/ui");
        let is_ui: bool = match &context.component_type {
            Option::Some(t) => {
                proof {
                    reveal_strlit("registry:ui");
                }
                str_eq(t.as_str(), "registry:ui")
            },
            Option::None => false,
        };
        let nt: Vec<char> = if is_ui && starts_with_chars(&tc, &ui_prefix) && ends_with_chars(
            &rc,
            &ui_suffix,
        ) {
            proof {
                reveal_strlit("ui/");
                assert(tc@.len() >= 3);
            }
            subrange_chars(&tc, 3, tc.len())
        } else {
            subrange_chars(&tc, 0, tc.len())
        };
        let mut out = rc;
        out.push('/');
        append_chars(&mut out, &nt);
        proof {
            reveal_strlit("/");
            assert("/"@ =~= seq!['/']);
            assert(tc@.subrange(0, tc@.len() as int) =~= tc@);
            assert(out@ =~= spec_resolve_file_path(
                self.config.aliases,
                ts_table(self.typescript_paths),
                opt_view(context.component_type),
                target@,
            ));
        }
        chars_to_string(&out)
    }
}


/// Whether some alias of the table prefixes the import path.
pub open spec fn spec_import_hit(tab: Seq<(Seq<char>, Seq<char>)>, p: Seq<char>) -> bool {
    first_prefix_match(tab, p) is Some
}

/// Manual resolution of an import path: one leading `$lib` alias is mapped
/// to the configured library alias when there is one; anything else passes
/// through verbatim.
pub open spec fn spec_import_manual(lib: Option<Seq<char>>, p: Seq<char>) -> Seq<char> {
    if starts_with_spec(p, "$lib"@) {
        match lib {
            Option::Some(l) => replace_all_spec(p, "$lib"@, l),
            Option::None => p,
        }
    } else {
        p
    }
}

/// The import path a placeholder resolves to: kept as the alias itself when
/// the table knows it, else resolved manually.
pub open spec fn spec_import_path(
    ts: Option<Seq<(Seq<char>, Seq<char>)>>,
    lib: Option<Seq<char>>,
    p: Seq<char>,
) -> Seq<char> {
    match ts {
        Option::Some(tab) => if spec_import_hit(tab, p) {
            p
        } else {
            spec_import_manual(lib, p)
        },
        Option::None => spec_import_manual(lib, p),
    }
}

/// The alias the components placeholder resolves through: the context's
/// category when one is given, else the generic components alias.
pub open spec fn spec_components_sel(a: AliasesConfig, ctx: Option<Option<Seq<char>>>) -> Seq<
    char,
> {
    match ctx {
        Option::Some(t) => spec_alias_for(a, t),
        Option::None => a.components@,
    }
}

/// The alias the hooks placeholder resolves through: the hooks alias for a
/// hook component or without a context, the category's own alias otherwise.
pub open spec fn spec_hooks_sel(a: AliasesConfig, ctx: Option<Option<Seq<char>>>) -> Seq<char> {
    let fallback = match a.hooks {
        Option::Some(h) => h@,
        Option::None => a.components@,
    };
    match ctx {
        Option::Some(t) => if t == Option::Some("registry:hook"@) {
            fallback
        } else {
            spec_alias_for(a, t)
        },
        Option::None => fallback,
    }
}

/// The alias the library placeholder resolves through, by the same rule as
/// the hooks placeholder; it is never second-guessed by manual resolution.
pub open spec fn spec_lib_sel(a: AliasesConfig, ctx: Option<Option<Seq<char>>>) -> Seq<char> {
    let fallback = match a.lib {
        Option::Some(l) => l@,
        Option::None => a.components@,
    };
    match ctx {
        Option::Some(t) => if t == Option::Some("registry:lib"@) {
            fallback
        } else {
            spec_alias_for(a, t)
        },
        Option::None => fallback,
    }
}

/// What processing a file's content yields: the four placeholder tokens
/// replaced by the context's aliases, then, under TypeScript, the `.js`
/// specifier cleanup.
pub open spec fn spec_process_placeholders(
    a: AliasesConfig,
    ts: Option<Seq<(Seq<char>, Seq<char>)>>,
    ts_on: bool,
    ctx: Option<Option<Seq<char>>>,
    content: Seq<char>,
) -> Seq<char> {
    let lib = opt_view(a.lib);
    let u = spec_import_path(ts, lib, a.utils@);
    let c = spec_import_path(ts, lib, spec_components_sel(a, ctx));
    let h = spec_import_path(ts, lib, spec_hooks_sel(a, ctx));
    let l = spec_lib_sel(a, ctx);
    let s1 = replace_all_spec(content, "$UTILS$"@, u);
    let s2 = replace_all_spec(s1, "$COMPONENTS$"@, c);
    let s3 = replace_all_spec(s2, "$HOOKS$"@, h);
    let s4 = replace_all_spec(s3, "$LIB$"@, l);
    if ts_on {
        strip_js_spec(s4)
    } else {
        s4
    }
}

/// The context view processing goes by: whether a context is given, and
/// which category it declares.
pub open spec fn ctx_view(c: Option<&ComponentContext>) -> Option<Option<Seq<char>>> {
    match c {
        Option::Some(cc) => Option::Some(opt_view(cc.component_type)),
        Option::None => Option::None,
    }
}

impl ComponentInstaller {
    /// Whether TypeScript support is on in the configuration.
    pub fn is_typescript_enabled(&self) -> (r: bool)
        ensures
            r == spec_ts_enabled(self.config),
    {
        match &self.config.typescript {
            Option::Some(crate::config::TypeScriptConfig::Boolean(b)) => *b,
            Option::Some(crate::config::TypeScriptConfig::Object { .. }) => true,
            Option::None => false,
        }
    }

    /// Resolve an import path against the table: a path some alias prefixes
    /// keeps its alias form.
    fn resolve_import_path_with_typescript(
        &self,
        import_path: &str,
        ts_paths: &Vec<(String, String)>,
    ) -> (r: bool)
        ensures
            r == spec_import_hit(rp_model(ts_paths@), import_path@),
    {
        let ghost tab = rp_model(ts_paths@);
        let p = to_chars(import_path);
        let mut i: usize = 0;
        proof {
            assert(tab.subrange(0, tab.len() as int) =~= tab);
        }
        while i < ts_paths.len()
            invariant
                ts_paths.len() == ts_paths@.len(),
                tab == rp_model(ts_paths@),
                tab.len() == ts_paths@.len(),
                i <= ts_paths@.len(),
                p@ == import_path@,
                first_prefix_match(tab, p@) == first_prefix_match(
                    tab.subrange(i as int, tab.len() as int),
                    p@,
                ),
            decreases ts_paths@.len() - i,
        {
            let ghost rest = tab.subrange(i as int, tab.len() as int);
            let key = to_chars(ts_paths[i].0.as_str());
            proof {
                assert(rest[0] == tab[i as int]);
                assert(rest.subrange(1, rest.len() as int) =~= tab.subrange(
                    i + 1,
                    tab.len() as int,
                ));
            }
            if starts_with_chars(&p, &key) {
                return true;
            }
            i = i + 1;
        }
        proof {
            assert(tab.subrange(i as int, tab.len() as int) =~= Seq::<(Seq<char>, Seq<char>)>::empty());
        }
        false
    }

    /// Resolve an import path manually.
    fn resolve_import_path_manually(&self, import_path: &str) -> (r: String)
        ensures
            r@ == spec_import_manual(opt_view(self.config.aliases.lib), import_path@),
    {
        let p = to_chars(import_path);
        let lib_tok = to_chars("$lib");
        if starts_with_chars(&p, &lib_tok) {
            match &self.config.aliases.lib {
                Option::Some(l) => {
                    let rep = to_chars(l.as_str());
                    let done = replace_all(&p, &lib_tok, &rep);
                    chars_to_string(&done)
                },
                Option::None => import_path.to_owned(),
            }
        } else {
            import_path.to_owned()
        }
    }

    /// The import path a placeholder resolves to.
    fn import_path_for(&self, p: &str) -> (r: String)
        ensures
            r@ == spec_import_path(
                ts_table(self.typescript_paths),
                opt_view(self.config.aliases.lib),
                p@,
            ),
    {
        match &self.typescript_paths {
            Option::Some(tp) => {
                if self.resolve_import_path_with_typescript(p, &tp.paths) {
                    p.to_owned()
                } else {
                    self.resolve_import_path_manually(p)
                }
            },
            Option::None => self.resolve_import_path_manually(p),
        }
    }

    /// The alias selected for the components placeholder.
    fn components_sel(&self, context: Option<&ComponentContext>) -> (r: &str)
        ensures
            r@ == spec_components_sel(self.config.aliases, ctx_view(context)),
    {
        match context {
            Option::Some(c) => {
                let ctype: Option<&str> = match &c.component_type {
                    Option::Some(t) => Some(t.as_str()),
                    Option::None => None,
                };
                self.get_alias_for_component_type(ctype)
            },
            Option::None => self.config.aliases.components.as_str(),
        }
    }

    /// The alias selected for the hooks placeholder.
    fn hooks_sel(&self, context: Option<&ComponentContext>) -> (r: &str)
        ensures
            r@ == spec_hooks_sel(self.config.aliases, ctx_view(context)),
    {
        proof {
            reveal_strlit("registry:hook");
        }
        let fallback: &str = match &self.config.aliases.hooks {
            Option::Some(h) => h.as_str(),
            Option::None => self.config.aliases.components.as_str(),
        };
        match context {
            Option::Some(c) => match &c.component_type {
                Option::Some(t) => {
                    if str_eq(t.as_str(), "registry:hook") {
                        fallback
                    } else {
                        self.get_alias_for_component_type(Some(t.as_str()))
                    }
                },
                Option::None => self.get_alias_for_component_type(None),
            },
            Option::None => fallback,
        }
    }

    /// The alias selected for the library placeholder.
    fn lib_sel(&self, context: Option<&ComponentContext>) -> (r: &str)
        ensures
            r@ == spec_lib_sel(self.config.aliases, ctx_view(context)),
    {
        proof {
            reveal_strlit("registry:lib");
        }
        let fallback: &str = match &self.config.aliases.lib {
            Option::Some(l) => l.as_str(),
            Option::None => self.config.aliases.components.as_str(),
        };
        match context {
            Option::Some(c) => match &c.component_type {
                Option::Some(t) => {
                    if str_eq(t.as_str(), "registry:lib") {
                        fallback
                    } else {
                        self.get_alias_for_component_type(Some(t.as_str()))
                    }
                },
                Option::None => self.get_alias_for_component_type(None),
            },
            Option::None => fallback,
        }
    }

    /// Rewrite the symbolic placeholders of a file's content into concrete
    /// import paths for the given context, then clean `.js` specifier
    /// suffixes when TypeScript is on.
    pub fn process_placeholders(&self, content: &str, context: Option<&ComponentContext>) -> (r:
        String)
        ensures
            r@ == spec_process_placeholders(
                self.config.aliases,
                ts_table(self.typescript_paths),
                spec_ts_enabled(self.config),
                ctx_view(context),
                content@,
            ),
    {
        let u = self.import_path_for(self.config.aliases.utils.as_str());
        let csel = self.components_sel(context).to_owned();
        let c = self.import_path_for(csel.as_str());
        let hsel = self.hooks_sel(context).to_owned();
        let h = self.import_path_for(hsel.as_str());
        let l = self.lib_sel(context).to_owned();
        let cc = to_chars(content);
        let s1 = replace_all(&cc, &to_chars("$UTILS$"), &to_chars(u.as_str()));
        let s2 = replace_all(&s1, &to_chars("$COMPONENTS$"), &to_chars(c.as_str()));
        let s3 = replace_all(&s2, &to_chars("$HOOKS$"), &to_chars(h.as_str()));
        let s4 = replace_all(&s3, &to_chars("$LIB$"), &to_chars(l.as_str()));
        if self.is_typescript_enabled() {
            let s5 = strip_js_extensions(&s4);
            chars_to_string(&s5)
        } else {
            chars_to_string(&s4)
        }
    }

    /// The whitespace-insensitive normal form a file is compared under: the
    /// placeholders resolved without a context, every line trimmed, blank
    /// lines dropped.
    pub fn normalize_content(&self, content: &str) -> (r: String)
        ensures
            r@ == normalize_spec(
                spec_process_placeholders(
                    self.config.aliases,
                    ts_table(self.typescript_paths),
                    spec_ts_enabled(self.config),
                    Option::None,
                    content@,
                ),
            ),
    {
        let processed = self.process_placeholders(content, None);
        let pc = to_chars(processed.as_str());
        let normalized = normalize_chars(&pc);
        chars_to_string(&normalized)
    }

    /// Whether one installed file is stale against its registry copy: a
    /// missing local file is stale; otherwise the two are compared in
    /// normal form.
    pub fn file_outdated(&self, local: Option<&String>, registry_content: &str) -> (r: bool)
        ensures
            r == match local {
                Option::None => true,
                Option::Some(l) => normalize_spec(
                    spec_process_placeholders(
                        self.config.aliases,
                        ts_table(self.typescript_paths),
                        spec_ts_enabled(self.config),
                        Option::None,
                        l@,
                    ),
                ) != normalize_spec(
                    spec_process_placeholders(
                        self.config.aliases,
                        ts_table(self.typescript_paths),
                        spec_ts_enabled(self.config),
                        Option::None,
                        registry_content@,
                    ),
                ),
            },
    {
        match local {
            Option::None => true,
            Option::Some(l) => {
                let ln = self.normalize_content(l.as_str());
                let rn = self.normalize_content(registry_content);
                let a = to_chars(ln.as_str());
                let b = to_chars(rn.as_str());
                !crate::text::chars_eq(&a, &b)
            },
        }
    }

    /// Whether an installed component is stale: a component that is not
    /// installed is not stale; otherwise it is stale exactly when some
    /// declared file is missing locally or differs in normal form.
    pub fn is_component_outdated(
        &self,
        installed: bool,
        locals: &Vec<Option<String>>,
        registry_files: &Vec<String>,
    ) -> (r: bool)
        requires
            locals@.len() == registry_files@.len(),
        ensures
            r == (installed && exists|i: int|
                0 <= i < registry_files@.len() && spec_file_outdated(
                    self.config.aliases,
                    ts_table(self.typescript_paths),
                    spec_ts_enabled(self.config),
                    #[trigger] locals@[i],
                    registry_files@[i]@,
                )),
    {
        if !installed {
            return false;
        }
        let mut i: usize = 0;
        while i < registry_files.len()
            invariant
                installed,
                locals@.len() == registry_files@.len(),
                registry_files.len() == registry_files@.len(),
                i <= registry_files@.len(),
                forall|j: int|
                    0 <= j < i ==> !spec_file_outdated(
                        self.config.aliases,
                        ts_table(self.typescript_paths),
                        spec_ts_enabled(self.config),
                        #[trigger] locals@[j],
                        registry_files@[j]@,
                    ),
            decreases registry_files@.len() - i,
        {
            let l: Option<&String> = match &locals[i] {
                Option::Some(s) => Some(s),
                Option::None => None,
            };
            if self.file_outdated(l, registry_files[i].as_str()) {
                proof {
                    assert(spec_file_outdated(
                        self.config.aliases,
                        ts_table(self.typescript_paths),
                        spec_ts_enabled(self.config),
                        locals@[i as int],
                        registry_files@[i as int]@,
                    ));
                    assert(exists|j: int|
                        0 <= j < registry_files@.len() && spec_file_outdated(
                            self.config.aliases,
                            ts_table(self.typescript_paths),
                            spec_ts_enabled(self.config),
                            #[trigger] locals@[j],
                            registry_files@[j]@,
                        ));
                }
                return true;
            }
            i = i + 1;
        }
        false
    }
}

/// Whether one local file is stale against the registry copy, at spec level.
pub open spec fn spec_file_outdated(
    a: AliasesConfig,
    ts: Option<Seq<(Seq<char>, Seq<char>)>>,
    ts_on: bool,
    local: Option<String>,
    registry_content: Seq<char>,
) -> bool {
    match local {
        Option::None => true,
        Option::Some(l) => normalize_spec(
            spec_process_placeholders(a, ts, ts_on, Option::None, l@),
        ) != normalize_spec(
            spec_process_placeholders(a, ts, ts_on, Option::None, registry_content),
        ),
    }
}


/// The index of the first file whose target already exists while `force` is
/// off, or the file count when every write may proceed.
pub open spec fn spec_first_blocked(flags: Seq<bool>, force: bool) -> int
    decreases flags.len(),
{
    if force || flags.len() == 0 {
        flags.len() as int
    } else if flags[0] {
        0
    } else {
        1 + spec_first_blocked(flags.subrange(1, flags.len() as int), force)
    }
}

proof fn lemma_first_blocked_pins(flags: Seq<bool>, force: bool, i: int)
    requires
        0 <= i <= flags.len(),
        !force ==> forall|j: int| 0 <= j < i ==> !flags[j],
        !force ==> (i == flags.len() || flags[i]),
        force ==> i == flags.len(),
    ensures
        spec_first_blocked(flags, force) == i,
    decreases i,
{
    if !force && flags.len() > 0 {
        if i > 0 {
            let rest = flags.subrange(1, flags.len() as int);
            assert(forall|j: int| 0 <= j < rest.len() ==> rest[j] == flags[j + 1]);
            lemma_first_blocked_pins(rest, force, i - 1);
        }
    }
}

impl ComponentInstaller {
    /// Plan the file writes of one component install: each declared file
    /// resolved and processed in declaration order, stopping at the first
    /// target that already exists while `force` is off. The writes planned
    /// before the stop are still to be performed: an aborted install keeps
    /// its earlier files.
    pub fn install_component_files(
        &self,
        component: &Component,
        context: &ComponentContext,
        force: bool,
        exists_flags: &Vec<bool>,
    ) -> (r: (Vec<FileWrite>, Result<(), InstallError>))
        requires
            exists_flags@.len() == component.files@.len(),
        ensures
            ({
                let fb = spec_first_blocked(exists_flags@, force);
                &&& r.0@.len() == fb
                &&& forall|i: int|
                    0 <= i < fb ==> (#[trigger] r.0@[i]).path@ == spec_resolve_file_path(
                        self.config.aliases,
                        ts_table(self.typescript_paths),
                        opt_view(context.component_type),
                        spec_target_path(component.files@[i]),
                    ) && r.0@[i].content@ == spec_process_placeholders(
                        self.config.aliases,
                        ts_table(self.typescript_paths),
                        spec_ts_enabled(self.config),
                        Option::Some(opt_view(context.component_type)),
                        component.files@[i].content@,
                    )
                &&& (fb == component.files@.len() ==> r.1 is Ok)
                &&& (fb < component.files@.len() ==> (r.1 matches Result::Err(
                    InstallError::AlreadyExists(p),
                ) && p@ == spec_resolve_file_path(
                    self.config.aliases,
                    ts_table(self.typescript_paths),
                    opt_view(context.component_type),
                    spec_target_path(component.files@[fb]),
                )))
            }),
    {
        let mut writes: Vec<FileWrite> = Vec::new();
        let mut i: usize = 0;
        while i < component.files.len()
            invariant
                exists_flags@.len() == component.files@.len(),
                component.files.len() == component.files@.len(),
                i <= component.files@.len(),
                !force ==> forall|j: int| 0 <= j < i ==> !exists_flags@[j],
                writes@.len() == i,
                forall|j: int|
                    0 <= j < i ==> (#[trigger] writes@[j]).path@ == spec_resolve_file_path(
                        self.config.aliases,
                        ts_table(self.typescript_paths),
                        opt_view(context.component_type),
                        spec_target_path(component.files@[j]),
                    ) && writes@[j].content@ == spec_process_placeholders(
                        self.config.aliases,
                        ts_table(self.typescript_paths),
                        spec_ts_enabled(self.config),
                        Option::Some(opt_view(context.component_type)),
                        component.files@[j].content@,
                    ),
            decreases component.files@.len() - i,
        {
            let target = component.files[i].get_target_path();
            let path = self.resolve_file_path(target.as_str(), context);
            if exists_flags[i] && !force {
                proof {
                    lemma_first_blocked_pins(exists_flags@, force, i as int);
                }
                return (writes, Result::Err(InstallError::AlreadyExists(path)));
            }
            let content = self.process_placeholders(
                component.files[i].content.as_str(),
                Some(context),
            );
            writes.push(FileWrite { path, content });
            i = i + 1;
        }
        proof {
            lemma_first_blocked_pins(exists_flags@, force, component.files@.len() as int);
        }
        (writes, Result::Ok(()))
    }
}

/// The registry-level dependencies one install call expands: none at all
/// when dependency installation is skipped, else exactly the declared list.
pub open spec fn spec_dep_plan(c: Component, skip: bool) -> Seq<Seq<char>> {
    if skip {
        Seq::empty()
    } else {
        match c.registry_dependencies {
            Option::Some(d) => d.deep_view(),
            Option::None => Seq::empty(),
        }
    }
}

/// Dependency expansion goes one level and no further: an install started
/// for a dependency, which always skips its own dependencies, expands none;
/// so a component's transitive registry dependencies are never installed
/// automatically.
pub proof fn lemma_dependency_expansion_one_level()
    ensures
        forall|c: Component| spec_dep_plan(c, true) == Seq::<Seq<char>>::empty(),
{
}

impl ComponentInstaller {
    /// The registry dependencies to install before a component's own files;
    /// each of them is then installed with its own dependencies skipped.
    pub fn registry_dependency_plan(&self, component: &Component, skip_deps: bool) -> (r: Vec<
        String,
    >)
        ensures
            r.deep_view() == spec_dep_plan(*component, skip_deps),
    {
        if skip_deps {
            let r: Vec<String> = Vec::new();
            proof {
                assert(r.deep_view() =~~= spec_dep_plan(*component, true));
            }
            return r;
        }
        match &component.registry_dependencies {
            Option::Some(d) => {
                let mut r: Vec<String> = Vec::new();
                let mut i: usize = 0;
                while i < d.len()
                    invariant
                        d.len() == d@.len(),
                        i <= d@.len(),
                        r@.len() == i,
                        forall|j: int| 0 <= j < i ==> (#[trigger] r@[j])@ == d@[j]@,
                    decreases d@.len() - i,
                {
                    r.push(d[i].clone());
                    i = i + 1;
                }
                proof {
                    assert(r.deep_view() =~~= d.deep_view());
                }
                r
            },
            Option::None => {
                let r: Vec<String> = Vec::new();
                proof {
                    assert(r.deep_view() =~~= spec_dep_plan(*component, false));
                }
                r
            },
        }
    }

    /// The package-manager invocations a component's declared dependencies
    /// call for: nothing at all when no manager was detected, in which case
    /// the caller warns and spawns no process; otherwise one install
    /// command per non-empty dependency list.
    pub fn dependency_install_commands(&self, deps: &ComponentDependencies) -> (r: Option<
        Vec<Vec<String>>,
    >)
        ensures
            match self.package_manager {
                Option::None => r is None,
                Option::Some(d) => r matches Option::Some(cs) && cs.deep_view()
                    == spec_install_commands(
                    d.manager,
                    deps.dependencies.deep_view(),
                    deps.dev_dependencies.deep_view(),
                ),
            },
    {
        let manager: PackageManager = match &self.package_manager {
            Option::Some(d) => d.manager,
            Option::None => {
                return None;
            },
        };
        let mut cmds: Vec<Vec<String>> = Vec::new();
        if deps.dependencies.len() > 0 {
            let mut c = manager.install_command();
            let ghost c0 = c.deep_view();
            let mut i: usize = 0;
            while i < deps.dependencies.len()
                invariant
                    deps.dependencies.len() == deps.dependencies@.len(),
                    i <= deps.dependencies@.len(),
                    c.deep_view() == c0 + deps.dependencies.deep_view().subrange(0, i as int),
                decreases deps.dependencies@.len() - i,
            {
                let ghost cv = c.deep_view();
                c.push(deps.dependencies[i].clone());
                i = i + 1;
                proof {
                    assert(deps.dependencies@[i - 1].deep_view() =~= deps.dependencies@[i - 1]@);
                    assert(c.deep_view() =~~= cv.push(deps.dependencies.deep_view()[i - 1]));
                    assert(cv.push(deps.dependencies.deep_view()[i - 1]) =~~= c0
                        + deps.dependencies.deep_view().subrange(0, i as int));
                }
            }
            proof {
                assert(deps.dependencies.deep_view().subrange(0, i as int)
                    =~= deps.dependencies.deep_view());
            }
            cmds.push(c);
        }
        let ghost cmds1 = cmds.deep_view();
        if deps.dev_dependencies.len() > 0 {
            let mut c = manager.install_dev_command();
            let ghost c0 = c.deep_view();
            let mut i: usize = 0;
            while i < deps.dev_dependencies.len()
                invariant
                    deps.dev_dependencies.len() == deps.dev_dependencies@.len(),
                    i <= deps.dev_dependencies@.len(),
                    c.deep_view() == c0 + deps.dev_dependencies.deep_view().subrange(0, i as int),
                decreases deps.dev_dependencies@.len() - i,
            {
                let ghost cv = c.deep_view();
                c.push(deps.dev_dependencies[i].clone());
                i = i + 1;
                proof {
                    assert(deps.dev_dependencies@[i - 1].deep_view() =~= deps.dev_dependencies@[i
                        - 1]@);
                    assert(c.deep_view() =~~= cv.push(deps.dev_dependencies.deep_view()[i - 1]));
                    assert(cv.push(deps.dev_dependencies.deep_view()[i - 1]) =~~= c0
                        + deps.dev_dependencies.deep_view().subrange(0, i as int));
                }
            }
            proof {
                assert(deps.dev_dependencies.deep_view().subrange(0, i as int)
                    =~= deps.dev_dependencies.deep_view());
            }
            cmds.push(c);
        }
        proof {
            assert(cmds.deep_view() =~~= spec_install_commands(
                manager,
                deps.dependencies.deep_view(),
                deps.dev_dependencies.deep_view(),
            ));
        }
        Some(cmds)
    }
}

/// The install invocations a dependency set calls for under a manager: one
/// command for the regular list and one for the development list, each only
/// when non-empty, in that order.
pub open spec fn spec_install_commands(
    m: PackageManager,
    deps: Seq<Seq<char>>,
    dev: Seq<Seq<char>>,
) -> Seq<Seq<Seq<char>>> {
    let base: Seq<Seq<Seq<char>>> = if deps.len() > 0 {
        seq![crate::package_manager::spec_install_cmd(m) + deps]
    } else {
        Seq::empty()
    };
    let devs: Seq<Seq<Seq<char>>> = if dev.len() > 0 {
        seq![crate::package_manager::spec_install_dev_cmd(m) + dev]
    } else {
        Seq::empty()
    };
    base + devs
}


/// A freshly installed file reads as current: the staleness comparison of
/// the just-written file against the registry content it came from finds no
/// difference, whenever the substitution the install used agrees with the
/// context-free one the comparison uses, and the written text is a fixpoint
/// of context-free processing. Both side conditions hold outright for
/// content free of placeholder tokens while the cleanup pass is off (see
/// `lemma_process_without_tokens`); a context whose category resolves other
/// aliases than the generic ones is the input on which the round trip
/// genuinely fails, and stays outside.
pub proof fn lemma_fresh_install_not_outdated(
    a: AliasesConfig,
    ts: Option<Seq<(Seq<char>, Seq<char>)>>,
    ts_on: bool,
    t: Option<Seq<char>>,
    registry_content: Seq<char>,
    written: String,
)
    requires
        written@ == spec_process_placeholders(a, ts, ts_on, Option::Some(t), registry_content),
        spec_process_placeholders(a, ts, ts_on, Option::Some(t), registry_content)
            == spec_process_placeholders(a, ts, ts_on, Option::None, registry_content),
        spec_process_placeholders(a, ts, ts_on, Option::None, written@) == written@,
    ensures
        !spec_file_outdated(a, ts, ts_on, Option::Some(written), registry_content),
{
    assert(spec_process_placeholders(a, ts, ts_on, Option::None, written@)
        == spec_process_placeholders(a, ts, ts_on, Option::None, registry_content));
}

/// Processing changes nothing on content that holds none of the four
/// placeholder tokens while the TypeScript cleanup is off, under any
/// context: each substitution finds no occurrence to replace.
pub proof fn lemma_process_without_tokens(
    a: AliasesConfig,
    ts: Option<Seq<(Seq<char>, Seq<char>)>>,
    ctx: Option<Option<Seq<char>>>,
    content: Seq<char>,
)
    requires
        !has_sub(content, "$UTILS$"@),
        !has_sub(content, "$COMPONENTS$"@),
        !has_sub(content, "$HOOKS$"@),
        !has_sub(content, "$LIB$"@),
    ensures
        spec_process_placeholders(a, ts, false, ctx, content) == content,
{
    let lib = opt_view(a.lib);
    let u = spec_import_path(ts, lib, a.utils@);
    let c = spec_import_path(ts, lib, spec_components_sel(a, ctx));
    let h = spec_import_path(ts, lib, spec_hooks_sel(a, ctx));
    let l = spec_lib_sel(a, ctx);
    crate::text::lemma_replace_all_absent(content, "$UTILS$"@, u);
    crate::text::lemma_replace_all_absent(content, "$COMPONENTS$"@, c);
    crate::text::lemma_replace_all_absent(content, "$HOOKS$"@, h);
    crate::text::lemma_replace_all_absent(content, "$LIB$"@, l);
}

/// Lexicographic order on texts by character code; ties of a common prefix
/// go to the shorter text.
pub open spec fn chars_le(a: Seq<char>, b: Seq<char>) -> bool
    decreases a.len(),
{
    if a.len() == 0 {
        true
    } else if b.len() == 0 {
        false
    } else if a[0] != b[0] {
        a[0] < b[0]
    } else {
        chars_le(a.subrange(1, a.len() as int), b.subrange(1, b.len() as int))
    }
}

pub proof fn lemma_chars_le_total(a: Seq<char>, b: Seq<char>)
    ensures
        chars_le(a, b) || chars_le(b, a),
    decreases a.len(),
{
    if a.len() == 0 {
        assert(chars_le(a, b));
    } else if b.len() == 0 {
        assert(chars_le(b, a));
    } else if a[0] == b[0] {
        lemma_chars_le_total(
            a.subrange(1, a.len() as int),
            b.subrange(1, b.len() as int),
        );
    } else {
        if a[0] < b[0] {
            assert(chars_le(a, b));
        } else {
            assert(chars_le(b, a));
        }
    }
}

pub proof fn lemma_chars_le_antisym(a: Seq<char>, b: Seq<char>)
    requires
        chars_le(a, b),
        chars_le(b, a),
    ensures
        a == b,
    decreases a.len(),
{
    if a.len() == 0 {
        assert(b.len() == 0);
        assert(a =~= b);
    } else {
        assert(b.len() > 0);
        assert(a[0] == b[0]);
        lemma_chars_le_antisym(
            a.subrange(1, a.len() as int),
            b.subrange(1, b.len() as int),
        );
        assert(a.subrange(1, a.len() as int).len() == b.subrange(1, b.len() as int).len());
        assert(forall|i: int|
            1 <= i < a.len() ==> a[i] == a.subrange(1, a.len() as int)[i - 1]);
        assert(forall|i: int|
            1 <= i < b.len() ==> b[i] == b.subrange(1, b.len() as int)[i - 1]);
        assert(a =~= b);
    }
}

pub proof fn lemma_chars_le_trans(a: Seq<char>, b: Seq<char>, c: Seq<char>)
    requires
        chars_le(a, b),
        chars_le(b, c),
    ensures
        chars_le(a, c),
    decreases a.len(),
{
    if a.len() > 0 {
        assert(b.len() > 0);
        assert(c.len() > 0);
        if a[0] == b[0] && b[0] == c[0] {
            lemma_chars_le_trans(
                a.subrange(1, a.len() as int),
                b.subrange(1, b.len() as int),
                c.subrange(1, c.len() as int),
            );
        }
    }
}

/// Compare two texts in lexicographic order.
pub fn chars_le_exec(a: &Vec<char>, b: &Vec<char>) -> (r: bool)
    ensures
        r == chars_le(a@, b@),
    decreases a@.len(),
{
    if a.len() == 0 {
        return true;
    }
    if b.len() == 0 {
        return false;
    }
    if a[0] != b[0] {
        return a[0] < b[0];
    }
    let ta = subrange_chars(a, 1, a.len());
    let tb = subrange_chars(b, 1, b.len());
    chars_le_exec(&ta, &tb)
}

/// A listing in strictly ascending lexicographic order.
pub open spec fn sorted_unique(s: Seq<Seq<char>>) -> bool {
    forall|a: int, b: int|
        0 <= a < b < s.len() ==> chars_le(#[trigger] s[a], #[trigger] s[b]) && s[a] != s[b]
}

/// Insert a name into a sorted listing, keeping order and dropping a
/// duplicate.
fn insert_unique_sorted(v: &mut Vec<String>, s: String)
    requires
        sorted_unique(old(v).deep_view()),
    ensures
        sorted_unique(final(v).deep_view()),
        forall|x: Seq<char>|
            final(v).deep_view().contains(x) <==> (old(v).deep_view().contains(x) || x == s@),
{
    let ghost dv0 = v.deep_view();
    let sc = to_chars(s.as_str());
    let mut i: usize = 0;
    let mut stop: bool = false;
    while i < v.len() && !stop
        invariant
            v@ == old(v)@,
            dv0 == v.deep_view(),
            v.len() == dv0.len(),
            sc@ == s@,
            i <= dv0.len(),
            forall|j: int|
                0 <= j < i ==> chars_le(#[trigger] dv0[j], s@) && dv0[j] != s@,
            stop ==> i < dv0.len() && !(chars_le(dv0[i as int], s@) && dv0[i as int] != s@),
        decreases dv0.len() - i, 1int - (if stop { 1int } else { 0int }),
    {
        proof {
            assert(v@[i as int].deep_view() =~= v@[i as int]@);
        }
        let vc = to_chars(v[i].as_str());
        if chars_le_exec(&vc, &sc) && !crate::text::chars_eq(&vc, &sc) {
            i = i + 1;
        } else {
            stop = true;
        }
    }
    proof {
        assert(forall|j: int| 0 <= j < dv0.len() ==> dv0[j] == v@[j].deep_view());
        assert(forall|j: int| 0 <= j < dv0.len() ==> v@[j].deep_view() =~= v@[j]@);
    }
    if i < v.len() {
        let vc = to_chars(v[i].as_str());
        if crate::text::chars_eq(&vc, &sc) {
            proof {
                assert(dv0[i as int] =~= s@);
                assert(dv0.contains(s@)) by {
                    assert(dv0[i as int] == s@);
                }
            }
            return ;
        }
        proof {
            assert(dv0[i as int] =~= v@[i as int]@);
            lemma_chars_le_total(dv0[i as int], s@);
            assert(chars_le(s@, dv0[i as int]));
        }
    }
    let ghost pos = i as int;
    v.insert(i, s);
    proof {
        let dv = v.deep_view();
        assert(dv.len() == dv0.len() + 1);
        assert forall|j: int| 0 <= j < dv.len() implies dv[j] == (if j < pos {
            dv0[j]
        } else if j == pos {
            sc@
        } else {
            dv0[j - 1]
        }) by {
            assert(dv[j] == v@[j].deep_view());
            assert(v@[j].deep_view() =~= v@[j]@);
            if j < pos {
                assert(v@[j] == old(v)@[j]);
            } else if j == pos {
            } else {
                assert(v@[j] == old(v)@[j - 1]);
            }
        }
        assert forall|a: int, b: int| 0 <= a < b < dv.len() implies chars_le(
            #[trigger] dv[a],
            #[trigger] dv[b],
        ) && dv[a] != dv[b] by {
            if a < pos && b < pos {
            } else if a < pos && b == pos {
                assert(chars_le(dv0[a], sc@) && dv0[a] != sc@);
            } else if a < pos && b > pos {
            } else if a == pos && b > pos {
                if pos < dv0.len() {
                    assert(chars_le(sc@, dv0[pos]));
                    if b - 1 > pos {
                        assert(chars_le(dv0[pos], dv0[b - 1]));
                        lemma_chars_le_trans(sc@, dv0[pos], dv0[b - 1]);
                        if sc@ == dv0[b - 1] {
                            lemma_chars_le_total(dv0[pos], dv0[b - 1]);
                            lemma_chars_le_antisym(sc@, dv0[pos]);
                        }
                    } else {
                        if sc@ == dv0[pos] {
                            assert(false);
                        }
                    }
                }
            } else {
                assert(dv[a] == dv0[a - 1] && dv[b] == dv0[b - 1]);
            }
        }
        assert forall|x: Seq<char>| dv.contains(x) <==> (dv0.contains(x) || x == sc@) by {
            if dv.contains(x) {
                let j = choose|j: int| 0 <= j < dv.len() && dv[j] == x;
                if j < pos {
                    assert(dv0[j] == x);
                } else if j > pos {
                    assert(dv0[j - 1] == x);
                }
            }
            if dv0.contains(x) {
                let j = choose|j: int| 0 <= j < dv0.len() && dv0[j] == x;
                if j < pos {
                    assert(dv[j] == x);
                } else {
                    assert(dv[j + 1] == x);
                }
            }
            if x == sc@ {
                assert(dv[pos] == x);
            }
        }
    }
}

/// What one directory entry contributes to the installed listing: a visible
/// subdirectory counts under its own name; a visible file that is not a
/// declaration, a source map or an index artifact of any extension counts
/// under its name up to the first dot.
pub open spec fn spec_classify_entry(name: Seq<char>, is_dir: bool) -> Option<Seq<char>> {
    if name.len() == 0 || name[0] == '.' {
        Option::None
    } else if is_dir {
        Option::Some(name)
    } else if ends_with_spec(name, ".d.ts"@) || ends_with_spec(name, ".map"@) {
        Option::None
    } else {
        let stem = crate::text::split_spec(name, '.')[0];
        if stem.len() == 0 || stem == "index"@ {
            Option::None
        } else {
            Option::Some(stem)
        }
    }
}

/// Classify one directory entry for the installed listing.
pub fn classify_entry(name: &str, is_dir: bool) -> (r: Option<String>)
    ensures
        match r {
            Option::Some(s) => spec_classify_entry(name@, is_dir) == Option::Some(s@),
            Option::None => spec_classify_entry(name@, is_dir) is None,
        },
{
    let nc = to_chars(name);
    if nc.len() == 0 || nc[0] == '.' {
        return None;
    }
    if is_dir {
        return Some(name.to_owned());
    }
    let dts = to_chars(".d.ts");
    let map = to_chars(".map");
    if ends_with_chars(&nc, &dts) || ends_with_chars(&nc, &map) {
        return None;
    }
    let parts = crate::text::split_chars(&nc, '.');
    proof {
        crate::text::lemma_split_nonempty(nc@, '.');
        assert(parts.deep_view()[0] == parts@[0].deep_view());
        assert(parts@[0].deep_view() =~= parts@[0]@);
    }
    if parts[0].len() == 0 || crate::text::chars_eq(&parts[0], &to_chars("index")) {
        return None;
    }
    Some(chars_to_string(&parts[0]))
}

/// The locally installed components, read off the entries of the resolved
/// ui directory: visible entries classified, merged, deduplicated and
/// sorted lexically.
pub fn get_installed_components(entries: &Vec<(String, bool)>) -> (r: Vec<String>)
    ensures
        sorted_unique(r.deep_view()),
        forall|x: Seq<char>|
            r.deep_view().contains(x) <==> exists|j: int|
                0 <= j < entries@.len() && spec_classify_entry(
                    (#[trigger] entries@[j]).0@,
                    entries@[j].1,
                ) == Option::Some(x),
{
    let mut r: Vec<String> = Vec::new();
    let mut i: usize = 0;
    while i < entries.len()
        invariant
            entries.len() == entries@.len(),
            i <= entries@.len(),
            sorted_unique(r.deep_view()),
            forall|x: Seq<char>|
                r.deep_view().contains(x) <==> exists|j: int|
                    0 <= j < i && spec_classify_entry(
                        (#[trigger] entries@[j]).0@,
                        entries@[j].1,
                    ) == Option::Some(x),
        decreases entries@.len() - i,
    {
        let ghost rv0 = r.deep_view();
        match classify_entry(entries[i].0.as_str(), entries[i].1) {
            Option::Some(name) => {
                let ghost nv = name@;
                insert_unique_sorted(&mut r, name);
                proof {
                    assert forall|x: Seq<char>|
                        r.deep_view().contains(x) <==> exists|j: int|
                            0 <= j < i + 1 && spec_classify_entry(
                                (#[trigger] entries@[j]).0@,
                                entries@[j].1,
                            ) == Option::Some(x) by {
                        if r.deep_view().contains(x) {
                            if rv0.contains(x) {
                                let j = choose|j: int|
                                    0 <= j < i && spec_classify_entry(
                                        (#[trigger] entries@[j]).0@,
                                        entries@[j].1,
                                    ) == Option::Some(x);
                                assert(spec_classify_entry(entries@[j].0@, entries@[j].1)
                                    == Option::Some(x));
                            } else {
                                assert(x == nv);
                                assert(spec_classify_entry(
                                    entries@[i as int].0@,
                                    entries@[i as int].1,
                                ) == Option::Some(x));
                            }
                        }
                        if exists|j: int|
                            0 <= j < i + 1 && spec_classify_entry(
                                (#[trigger] entries@[j]).0@,
                                entries@[j].1,
                            ) == Option::Some(x) {
                            let j = choose|j: int|
                                0 <= j < i + 1 && spec_classify_entry(
                                    (#[trigger] entries@[j]).0@,
                                    entries@[j].1,
                                ) == Option::Some(x);
                            if j < i {
                                assert(rv0.contains(x));
                            } else {
                                assert(x == nv);
                            }
                        }
                    }
                }
            },
            Option::None => {
                proof {
                    assert forall|x: Seq<char>|
                        r.deep_view().contains(x) <==> exists|j: int|
                            0 <= j < i + 1 && spec_classify_entry(
                                (#[trigger] entries@[j]).0@,
                                entries@[j].1,
                            ) == Option::Some(x) by {
                        if exists|j: int|
                            0 <= j < i + 1 && spec_classify_entry(
                                (#[trigger] entries@[j]).0@,
                                entries@[j].1,
                            ) == Option::Some(x) {
                            let j = choose|j: int|
                                0 <= j < i + 1 && spec_classify_entry(
                                    (#[trigger] entries@[j]).0@,
                                    entries@[j].1,
                                ) == Option::Some(x);
                            assert(j < i);
                        }
                    }
                }
            },
        }
        i = i + 1;
    }
    r
}

} // verus!
