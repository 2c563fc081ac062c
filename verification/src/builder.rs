//! Static registry bundling: the declared shape of a registry definition
//! and the pure decisions of the build — which files serve a style, and
//! which component-style pairs are built.
use vstd::prelude::*;

use crate::config::{kv_has, kv_lookup};
use crate::text::str_eq;

verus! {

/// A registry definition to bundle.
#[derive(Debug, Clone)]
pub struct RegistryConfig {
    pub schema: Option<String>,
    pub name: String,
    pub description: Option<String>,
    pub homepage: Option<String>,
    pub docs: Option<String>,
    pub author: Option<RegistryAuthor>,
    pub styles: Option<Vec<String>>,
    pub default_style: Option<String>,
    pub components: Vec<(String, ComponentDefinition)>,
}

/// Who maintains a registry.
#[derive(Debug, Clone)]
pub struct RegistryAuthor {
    pub name: String,
    pub email: Option<String>,
    pub url: Option<String>,
}

/// One component's build definition.
#[derive(Debug, Clone)]
pub struct ComponentDefinition {
    pub name: String,
    pub component_type: Option<String>,
    pub description: Option<String>,
    pub registry_dependencies: Option<Vec<String>>,
    pub dev_dependencies: Option<Vec<String>>,
    pub dependencies: Option<Vec<String>>,
    pub peer_dependencies: Option<Vec<String>>,
    pub files: Option<Vec<(String, Vec<ComponentFileSource>)>>,
    pub default_files: Option<Vec<ComponentFileSource>>,
    pub tags: Option<Vec<String>>,
    pub external: Option<bool>,
}

/// Where one bundled file comes from and goes to.
#[derive(Debug, Clone)]
pub struct ComponentFileSource {
    pub source: String,
    pub target: String,
    pub file_type: Option<String>,
}

/// The definition's file-table view.
pub open spec fn files_model(v: Seq<(String, Vec<ComponentFileSource>)>) -> Seq<
    (Seq<char>, Vec<ComponentFileSource>),
> {
    Seq::new(v.len(), |i: int| (v[i].0@, v[i].1))
}

/// The file sources that serve one style: the style's own list, else the
/// default style's list, else the style-independent default files.
pub open spec fn spec_file_sources(d: ComponentDefinition, style: Seq<char>) -> Option<
    Vec<ComponentFileSource>,
> {
    let from_table = match d.files {
        Option::Some(f) => if kv_has(files_model(f@), style) {
            kv_lookup(files_model(f@), style)
        } else {
            kv_lookup(files_model(f@), "default"@)
        },
        Option::None => Option::None,
    };
    match from_table {
        Option::Some(v) => Option::Some(v),
        Option::None => d.default_files,
    }
}

/// The planner over a registry definition.
pub struct RegistryBuilder {
    pub config: RegistryConfig,
    pub base_path: String,
    pub output_path: String,
}

impl RegistryBuilder {
    /// The loaded registry definition.
    pub fn config(&self) -> (r: &RegistryConfig)
        ensures
            *r == self.config,
    {
        &self.config
    }

    /// The directory source paths are relative to.
    pub fn base_path(&self) -> (r: &str)
        ensures
            r@ == self.base_path@,
    {
        self.base_path.as_str()
    }

    /// The directory the bundle is written into.
    pub fn output_path(&self) -> (r: &str)
        ensures
            r@ == self.output_path@,
    {
        self.output_path.as_str()
    }

    /// The file sources serving one component and style, by the declared
    /// fallback order.
    pub fn file_sources_for<'a>(&self, d: &'a ComponentDefinition, style: &str) -> (r: Option<
        &'a Vec<ComponentFileSource>,
    >)
        ensures
            match r {
                Option::Some(v) => spec_file_sources(*d, style@) == Option::Some(*v),
                Option::None => spec_file_sources(*d, style@) is None,
            },
    {
        proof {
            reveal_strlit("default");
        }
        let from_table: Option<&Vec<ComponentFileSource>> = match &d.files {
            Option::Some(f) => {
                match find_files_key(f, style) {
                    Option::Some(v) => Some(v),
                    Option::None => find_files_key(f, "default"),
                }
            },
            Option::None => None,
        };
        match from_table {
            Option::Some(v) => Some(v),
            Option::None => d.default_files.as_ref(),
        }
    }
}

fn find_files_key<'a>(f: &'a Vec<(String, Vec<ComponentFileSource>)>, key: &str) -> (r: Option<
    &'a Vec<ComponentFileSource>,
>)
    ensures
        match r {
            Option::Some(v) => kv_lookup(files_model(f@), key@) == Option::Some(*v),
            Option::None => !kv_has(files_model(f@), key@),
        },
{
    let ghost m = files_model(f@);
    let mut i: usize = 0;
    while i < f.len()
        invariant
            f.len() == f@.len(),
            m == files_model(f@),
            m.len() == f@.len(),
            i <= f@.len(),
            forall|j: int| 0 <= j < i ==> (#[trigger] m[j]).0 != key@,
        decreases f@.len() - i,
    {
        if str_eq(f[i].0.as_str(), key) {
            proof {
                assert(m[i as int].0 == key@);
                crate::config::lemma_kv_scan_result(m, key@, i as int);
            }
            return Some(&f[i].1);
        }
        i = i + 1;
    }
    proof {
        crate::config::lemma_kv_scan_result(m, key@, m.len() as int);
    }
    None
}

} // verus!
