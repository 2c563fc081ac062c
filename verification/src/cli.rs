//! The command-line surface as plain data, and the pure decisions around
//! it: which configuration file a run uses, and how a component argument
//! names its registry.
use vstd::prelude::*;

use crate::text::to_chars;

verus! {

/// A parsed command line.
#[derive(Debug, Clone)]
pub struct Cli {
    pub command: Commands,
    pub config: Option<String>,
    pub verbose: bool,
}

/// The subcommands the tool offers.
#[derive(Debug, Clone)]
pub enum Commands {
    Init { force: bool, base_color: String, css: String, components: String, utils: String },
    Add { component: Option<String>, registry: Option<String>, skip_deps: bool, force: bool },
    Remove { component: String },
    List { registry: Option<String>, category: Option<String> },
    Search { query: String, registry: Option<String> },
    Registry { action: RegistryAction },
    Update { component: Option<String>, registry: Option<String> },
    Info { component: String, registry: Option<String> },
    Outdated { registry: Option<String> },
    Build { registry: String, output: String },
}

/// The registry-management subcommands.
#[derive(Debug, Clone)]
pub enum RegistryAction {
    Add { namespace: String, url: String },
    Remove { namespace: String },
    List,
    Test { namespace: String },
}

impl Cli {
    /// Whether verbose output was asked for.
    pub fn is_verbose(&self) -> (r: bool)
        ensures
            r == self.verbose,
    {
        self.verbose
    }

    /// Which configuration file this run uses: an explicitly given path
    /// verbatim; else the tool's own file when it exists, else the
    /// compatible file when that exists, else the tool's own file for a
    /// fresh configuration.
    pub fn config_path(&self, uiget_exists: bool, components_exists: bool) -> (r: String)
        ensures
            r@ == match self.config {
                Option::Some(p) => p@,
                Option::None => if uiget_exists {
                    "uiget.json"@
                } else if components_exists {
                    "components.json"@
                } else {
                    "uiget.json"@
                },
            },
    {
        match &self.config {
            Option::Some(p) => p.clone(),
            Option::None => {
                if uiget_exists {
                    "uiget.json".to_owned()
                } else if components_exists {
                    "components.json".to_owned()
                } else {
                    "uiget.json".to_owned()
                }
            },
        }
    }
}

/// How a component argument names its registry: an argument of the form
/// `@namespace/component` splits into the two, unless a registry was given
/// explicitly, which always wins.
pub open spec fn spec_parse_component_ns(
    name: Seq<char>,
    existing: Option<Seq<char>>,
) -> (Option<Seq<char>>, Option<Seq<char>>) {
    match existing {
        Option::Some(r) => (Option::Some(name), Option::Some(r)),
        Option::None => {
            if name.len() > 0 && name[0] == '@' && slash_pos(name) < name.len() && slash_pos(name)
                > 1 && slash_pos(name) + 1 < name.len() {
                (
                    Option::Some(name.subrange(slash_pos(name) + 1, name.len() as int)),
                    Option::Some(name.subrange(0, slash_pos(name))),
                )
            } else {
                (Option::Some(name), Option::None)
            }
        },
    }
}

/// The position of the first separator, or the length when none occurs.
pub open spec fn slash_pos(s: Seq<char>) -> int
    decreases s.len(),
{
    if s.len() == 0 {
        0
    } else if s[0] == '/' {
        0
    } else {
        1 + slash_pos(s.subrange(1, s.len() as int))
    }
}

proof fn lemma_slash_pos_pins(s: Seq<char>, k: int)
    requires
        0 <= k <= s.len(),
        forall|j: int| 0 <= j < k ==> s[j] != '/',
        k == s.len() || s[k] == '/',
    ensures
        slash_pos(s) == k,
    decreases k,
{
    if k > 0 {
        let rest = s.subrange(1, s.len() as int);
        assert(forall|j: int| 0 <= j < rest.len() ==> rest[j] == s[j + 1]);
        lemma_slash_pos_pins(rest, k - 1);
    }
}

/// Split a component argument into its component and registry parts.
pub fn parse_component_with_namespace(component_name: &str, existing_registry: Option<&str>) -> (r:
    (Option<String>, Option<String>))
    ensures
        ({
            let s = spec_parse_component_ns(component_name@, match existing_registry {
                Option::Some(e) => Option::Some(e@),
                Option::None => Option::None,
            });
            &&& match (r.0, s.0) {
                (Option::Some(a), Option::Some(b)) => a@ == b,
                (Option::None, Option::None) => true,
                _ => false,
            }
            &&& match (r.1, s.1) {
                (Option::Some(a), Option::Some(b)) => a@ == b,
                (Option::None, Option::None) => true,
                _ => false,
            }
        }),
{
    match existing_registry {
        Option::Some(e) => {
            return (Some(component_name.to_owned()), Some(e.to_owned()));
        },
        Option::None => {},
    }
    let chars = to_chars(component_name);
    let mut k: usize = 0;
    while k < chars.len() && chars[k] != '/'
        invariant
            chars.len() == chars@.len(),
            k <= chars@.len(),
            forall|j: int| 0 <= j < k ==> chars@[j] != '/',
        decreases chars@.len() - k,
    {
        k = k + 1;
    }
    proof {
        lemma_slash_pos_pins(chars@, k as int);
    }
    if chars.len() > 0 && chars[0] == '@' && k < chars.len() && k > 1 && k + 1 < chars.len() {
        let ns = crate::text::subrange_chars(&chars, 0, k);
        let comp = crate::text::subrange_chars(&chars, k + 1, chars.len());
        (
            Some(crate::text::chars_to_string(&comp)),
            Some(crate::text::chars_to_string(&ns)),
        )
    } else {
        (Some(component_name.to_owned()), None)
    }
}

} // verus!
