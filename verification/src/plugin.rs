//! The capability model and the plugin registry.
//!
//! A plugin is described to the registry by a `PluginSpec`: its name, a
//! description and parameter schema for the language model, and the
//! permission it needs. Registration decides admission: a plugin whose
//! required permission the registry's granted permission does not dominate
//! is never admitted, so everything present in the registry is safe to run.

use vstd::prelude::*;
use vstd::string::StringExecFns;

use crate::strutil;

verus! {

/// Why a plugin run failed.
#[derive(Debug, Clone, PartialEq, Eq)]
pub enum PluginError {
    /// The arguments had the wrong shape or type.
    InvalidInput(String),
    /// The work itself failed: I/O, a subprocess, and the like.
    ExecutionFailed(String),
    /// The plugin refused the action at run time.
    PermissionDenied(String),
    Other(String),
}

/// A capability set over reading, writing and executing.
#[derive(Debug, Clone, Copy, PartialEq, Eq, Structural)]
pub struct Permission {
    pub read: bool,
    pub write: bool,
    pub execute: bool,
}

/// `granted` dominates `required`: every capability required is granted.
pub open spec fn spec_allows(granted: Permission, required: Permission) -> bool {
    &&& required.read ==> granted.read
    &&& required.write ==> granted.write
    &&& required.execute ==> granted.execute
}

impl Permission {
    /// Read only.
    pub fn read_only() -> (r: Permission)
        ensures
            r == (Permission { read: true, write: false, execute: false }),
    {
        Permission { read: true, write: false, execute: false }
    }

    /// Read and write.
    pub fn read_write() -> (r: Permission)
        ensures
            r == (Permission { read: true, write: true, execute: false }),
    {
        Permission { read: true, write: true, execute: false }
    }

    /// Read, write and execute.
    pub fn all_capabilities() -> (r: Permission)
        ensures
            r == (Permission { read: true, write: true, execute: true }),
    {
        Permission { read: true, write: true, execute: true }
    }

    /// No capability at all.
    pub fn none() -> (r: Permission)
        ensures
            r == (Permission { read: false, write: false, execute: false }),
    {
        Permission { read: false, write: false, execute: false }
    }

    /// Check that this permission dominates the required one.
    pub fn allows(&self, required: &Permission) -> (r: bool)
        ensures
            r == spec_allows(*self, *required),
    {
        (!required.read || self.read) && (!required.write || self.write) && (!required.execute
            || self.execute)
    }
}

/// What a plugin run hands back: text, and optional structured metadata
/// carried as serialized text.
#[derive(Debug, Clone, PartialEq, Eq)]
pub struct PluginOutput {
    pub content: String,
    pub metadata: Option<String>,
}

impl PluginOutput {
    pub fn new(content: String) -> (r: PluginOutput)
        ensures
            r.content@ == content@,
            r.metadata is None,
    {
        PluginOutput { content, metadata: None }
    }

    pub fn with_metadata(self, metadata: String) -> (r: PluginOutput)
        ensures
            r.content@ == self.content@,
            r.metadata matches Some(m) && m@ == metadata@,
    {
        PluginOutput { content: self.content, metadata: Some(metadata) }
    }
}

/// How a plugin presents itself: name, description, parameter schema (a
/// JSON-schema text), and the permission it needs to run.
#[derive(Debug)]
pub struct PluginSpec {
    pub name: String,
    pub description: String,
    pub parameter_schema: String,
    pub required_permission: Permission,
}

/// The index of the first plugin with this name, or -1.
pub open spec fn spec_plugin_find(plugins: Seq<PluginSpec>, name: Seq<char>) -> int
    decreases plugins.len(),
{
    if plugins.len() == 0 {
        -1
    } else if plugins[0].name@ == name {
        0
    } else {
        let r = spec_plugin_find(plugins.drop_first(), name);
        if r == -1 {
            -1
        } else {
            r + 1
        }
    }
}

pub proof fn lemma_plugin_find_at(plugins: Seq<PluginSpec>, name: Seq<char>, j: int, found: bool)
    requires
        0 <= j <= plugins.len(),
        found ==> j < plugins.len() && plugins[j].name@ == name,
        !found ==> j == plugins.len(),
        forall|p: int| 0 <= p < j ==> (#[trigger] plugins[p]).name@ != name,
    ensures
        found ==> spec_plugin_find(plugins, name) == j,
        !found ==> spec_plugin_find(plugins, name) == -1,
    decreases plugins.len(),
{
    if plugins.len() > 0 && plugins[0].name@ != name {
        assert(j > 0);
        assert forall|p: int| 0 <= p < j - 1 implies (#[trigger] plugins.drop_first()[p]).name@
            != name by {
            assert(plugins.drop_first()[p] == plugins[p + 1]);
        }
        lemma_plugin_find_at(plugins.drop_first(), name, j - 1, found);
    }
}

/// Registry of the plugins the assistant may call, gated by a granted
/// permission fixed at construction.
#[derive(Debug)]
pub struct PluginRegistry {
    pub plugins: Vec<PluginSpec>,
    pub granted_permissions: Permission,
}

impl PluginRegistry {
    /// Permission soundness: every registered plugin's required permission
    /// is dominated by the granted permission, and names are unique.
    pub open spec fn wf(&self) -> bool {
        &&& forall|i: int|
            0 <= i < self.plugins@.len() ==> spec_allows(
                self.granted_permissions,
                (#[trigger] self.plugins@[i]).required_permission,
            )
        &&& forall|i: int, j: int|
            0 <= i < j < self.plugins@.len() ==> (#[trigger] self.plugins@[i]).name@ != (
            #[trigger] self.plugins@[j]).name@
    }

    /// An empty registry with the given granted permission.
    pub fn new(granted_permissions: Permission) -> (r: PluginRegistry)
        ensures
            r.wf(),
            r.plugins@.len() == 0,
            r.granted_permissions == granted_permissions,
    {
        PluginRegistry { plugins: Vec::new(), granted_permissions }
    }

    /// Register a plugin. Admitted exactly when the granted permission
    /// dominates the plugin's required permission; an admitted plugin
    /// replaces any earlier one of the same name. A refused plugin leaves
    /// the registry unchanged.
    pub fn register(&mut self, plugin: PluginSpec) -> (r: bool)
        requires
            old(self).wf(),
        ensures
            final(self).wf(),
            final(self).granted_permissions == old(self).granted_permissions,
            r == spec_allows(old(self).granted_permissions, plugin.required_permission),
            !r ==> final(self).plugins@ == old(self).plugins@,
            r ==> {
                let f = spec_plugin_find(old(self).plugins@, plugin.name@);
                if f >= 0 {
                    final(self).plugins@ == old(self).plugins@.update(f, plugin)
                } else {
                    final(self).plugins@ == old(self).plugins@.push(plugin)
                }
            },
    {
        if !self.granted_permissions.allows(&plugin.required_permission) {
            return false;
        }
        let m = self.plugins.len();
        let mut j: usize = 0;
        let mut found = false;
        while j < m && !found
            invariant
                m == self.plugins@.len(),
                0 <= j <= m,
                !found ==> forall|p: int|
                    0 <= p < j ==> (#[trigger] self.plugins@[p]).name@ != plugin.name@,
                found ==> j < m && self.plugins@[j as int].name@ == plugin.name@,
            decreases m - j + (if found {
                0int
            } else {
                1int
            }),
        {
            if strutil::str_eq(self.plugins[j].name.as_str(), plugin.name.as_str()) {
                found = true;
            } else {
                j = j + 1;
            }
        }
        proof {
            lemma_plugin_find_at(self.plugins@, plugin.name@, j as int, found);
        }
        let ghost before = self.plugins@;
        if found {
            self.plugins.set(j, plugin);
            assert forall|i1: int, i2: int| 0 <= i1 < i2 < self.plugins@.len() implies (
            #[trigger] self.plugins@[i1]).name@ != (#[trigger] self.plugins@[i2]).name@ by {
                assert(before[i1].name@ != before[i2].name@);
            }
        } else {
            self.plugins.push(plugin);
            assert forall|i1: int, i2: int| 0 <= i1 < i2 < self.plugins@.len() implies (
            #[trigger] self.plugins@[i1]).name@ != (#[trigger] self.plugins@[i2]).name@ by {
                if i2 < before.len() {
                    assert(before[i1].name@ != before[i2].name@);
                }
            }
        }
        true
    }

    /// Look a plugin up by name.
    pub fn get(&self, name: &str) -> (r: Option<&PluginSpec>)
        ensures
            match r {
                Some(p) => {
                    &&& spec_plugin_find(self.plugins@, name@) >= 0
                    &&& *p == self.plugins@[spec_plugin_find(self.plugins@, name@)]
                },
                None => spec_plugin_find(self.plugins@, name@) == -1,
            },
    {
        let m = self.plugins.len();
        let mut j: usize = 0;
        while j < m
            invariant
                m == self.plugins@.len(),
                0 <= j <= m,
                forall|p: int| 0 <= p < j ==> (#[trigger] self.plugins@[p]).name@ != name@,
            decreases m - j,
        {
            if strutil::str_eq(self.plugins[j].name.as_str(), name) {
                proof {
                    lemma_plugin_find_at(self.plugins@, name@, j as int, true);
                }
                return Some(&self.plugins[j]);
            }
            j = j + 1;
        }
        proof {
            lemma_plugin_find_at(self.plugins@, name@, m as int, false);
        }
        None
    }

    /// All registered plugins, in registration order (stable between
    /// mutations).
    pub fn all(&self) -> (r: &Vec<PluginSpec>)
        ensures
            r@ == self.plugins@,
    {
        &self.plugins
    }

    /// How many plugins are registered.
    pub fn get_count(&self) -> (r: usize)
        ensures
            r == self.plugins@.len(),
    {
        self.plugins.len()
    }
}

/// Permission soundness: in a well-formed registry no plugin's required
/// permission escapes the granted permission; nothing admitted at
/// registration ever exceeds it.
pub proof fn lemma_permission_soundness(reg: PluginRegistry)
    requires
        reg.wf(),
    ensures
        forall|i: int|
            0 <= i < reg.plugins@.len() ==> spec_allows(
                reg.granted_permissions,
                (#[trigger] reg.plugins@[i]).required_permission,
            ),
{
}

} // verus!
