//! Which projects and plugins are reported, and how often each plugin is used.
use vstd::prelude::*;

use crate::config::{Plugins, Projects};
use crate::project::{Plugin, PluginModel};
use crate::reader::plugin_models;

verus! {

/// Whether `text` matches the wildcard pattern `pattern` (`*` and `?`), case ignored.
pub uninterp spec fn wildcard_match(pattern: Seq<char>, text: Seq<char>) -> bool;

/// Whether `path` matches the glob pattern `pattern`; a pattern that does not parse matches
/// nothing.
pub uninterp spec fn glob_match(pattern: Seq<char>, path: Seq<char>) -> bool;

/// Relies on `wildmatch::WildMatch::new_case_insensitive` and `WildMatchPattern::matches`:
/// the answer depends on the pattern and the text alone.
#[verifier::external_body]
fn wildcard_matches(pattern: &str, text: &str) -> (r: bool)
    ensures
        r == wildcard_match(pattern@, text@),
{
    wildmatch::WildMatch::new_case_insensitive(pattern).matches(text)
}

/// Relies on `glob::Pattern::new` and `glob::Pattern::matches`, with the default options: the
/// answer depends on the pattern and the path alone.
#[verifier::external_body]
fn glob_matches(pattern: &str, path: &str) -> (r: bool)
    ensures
        r == glob_match(pattern@, path@),
{
    match glob::Pattern::new(pattern) {
        Ok(p) => p.matches(path),
        Err(_) => false,
    }
}

/// Whether `path` matches one of the ignore patterns.
pub fn is_ignored_path(patterns: &Vec<String>, path: &str) -> (r: bool)
    ensures
        r == exists|j: int| 0 <= j < patterns@.len() && glob_match(patterns@[j]@, path@),
{
    let mut j: usize = 0;
    while j < patterns.len()
        invariant
            0 <= j <= patterns@.len(),
            forall|k: int| 0 <= k < j ==> !glob_match(patterns@[k]@, path@),
        decreases patterns@.len() - j,
    {
        if glob_matches(patterns[j].as_str(), path) {
            return true;
        }
        j += 1;
    }
    false
}

/// Whether an architecture label names a 64-bit build.
pub fn is_64_bit(architecture: &String) -> (r: bool)
    ensures
        r == (architecture@ == "WIN64"@ || architecture@ == "MAC64 LE"@),
{
    *architecture == String::from_str("WIN64") || *architecture == String::from_str("MAC64 LE")
}

/// Whether a project of the given kind is reported.
pub fn is_reported(projects: &Projects, is_64_bit: bool) -> (r: bool)
    ensures
        r == if is_64_bit {
            projects.report_64_bit
        } else {
            projects.report_32_bit
        },
{
    if is_64_bit {
        projects.report_64_bit
    } else {
        projects.report_32_bit
    }
}

/// Whether `text` is one of `list`.
pub open spec fn listed(list: Seq<String>, text: Seq<char>) -> bool {
    exists|j: int| 0 <= j < list.len() && list[j]@ == text
}

fn is_listed(list: &Vec<String>, text: &String) -> (r: bool)
    ensures
        r == listed(list@, text@),
{
    let mut j: usize = 0;
    while j < list.len()
        invariant
            0 <= j <= list@.len(),
            forall|k: int| 0 <= k < j ==> list@[k]@ != text@,
        decreases list@.len() - j,
    {
        if list[j] == *text {
            return true;
        }
        j += 1;
    }
    false
}

/// A plugin is kept unless its GUID or its name is ignored.
pub open spec fn is_kept(p: PluginModel, ignores: Plugins) -> bool {
    !listed(ignores.guid_ignores@, p.guid) && !listed(ignores.name_ignores@, p.name)
}

/// The plugins of `ps` that are kept, in their order.
pub open spec fn kept_plugins(ps: Seq<PluginModel>, ignores: Plugins) -> Seq<PluginModel>
    decreases ps.len(),
{
    if ps.len() == 0 {
        ps
    } else {
        let rest = kept_plugins(ps.drop_last(), ignores);
        if is_kept(ps.last(), ignores) {
            rest.push(ps.last())
        } else {
            rest
        }
    }
}

/// The plugins that are not ignored, in their order.
pub fn filter_plugins(plugins: &Vec<Plugin>, ignores: &Plugins) -> (r: Vec<Plugin>)
    ensures
        plugin_models(r@) == kept_plugins(plugin_models(plugins@), *ignores),
{
    let ghost models = plugin_models(plugins@);
    let mut kept: Vec<Plugin> = Vec::new();
    let mut i: usize = 0;
    while i < plugins.len()
        invariant
            models == plugin_models(plugins@),
            0 <= i <= plugins@.len(),
            plugin_models(kept@) == kept_plugins(models.take(i as int), *ignores),
        decreases plugins@.len() - i,
    {
        let p = &plugins[i];
        assert(models.take(i + 1).drop_last() =~= models.take(i as int));
        assert(models.take(i + 1).last() == p@);
        if !is_listed(&ignores.guid_ignores, &p.guid) && !is_listed(&ignores.name_ignores, &p.name) {
            let copy = Plugin { guid: p.guid.clone(), name: p.name.clone() };
            let ghost before = kept@;
            kept.push(copy);
            assert(plugin_models(kept@) =~= plugin_models(before).push(p@));
        }
        i += 1;
    }
    assert(models.take(plugins@.len() as int) =~= models);
    kept
}

/// Whether one of `plugins` has a name that matches one of `patterns`.
pub open spec fn any_name_matches(plugins: Seq<Plugin>, patterns: Seq<String>) -> bool {
    exists|i: int, j: int|
        0 <= i < plugins.len() && 0 <= j < patterns.len() && wildcard_match(
            patterns[j]@,
            plugins[i].name@,
        )
}

/// Whether a project with these plugins passes the name filters: there are none, or one of
/// the plugins' names matches one of them.
pub fn passes_filters(plugins: &Vec<Plugin>, patterns: &Vec<String>) -> (r: bool)
    ensures
        r == (patterns@.len() == 0 || any_name_matches(plugins@, patterns@)),
{
    if patterns.len() == 0 {
        return true;
    }
    let mut i: usize = 0;
    while i < plugins.len()
        invariant
            0 <= i <= plugins@.len(),
            forall|a: int, b: int|
                0 <= a < i && 0 <= b < patterns@.len() ==> !wildcard_match(
                    patterns@[b]@,
                    plugins@[a].name@,
                ),
        decreases plugins@.len() - i,
    {
        let mut j: usize = 0;
        while j < patterns.len()
            invariant
                0 <= i < plugins@.len(),
                0 <= j <= patterns@.len(),
                forall|a: int, b: int|
                    0 <= a < i && 0 <= b < patterns@.len() ==> !wildcard_match(
                        patterns@[b]@,
                        plugins@[a].name@,
                    ),
                forall|b: int| 0 <= b < j ==> !wildcard_match(patterns@[b]@, plugins@[i as int].name@),
            decreases patterns@.len() - j,
        {
            if wildcard_matches(patterns[j].as_str(), plugins[i].name.as_str()) {
                return true;
            }
            j += 1;
        }
        i += 1;
    }
    false
}

/// A count one higher, held at `u64::MAX` once there.
pub open spec fn count_up(c: u64) -> u64 {
    if c == u64::MAX {
        c
    } else {
        (c + 1) as u64
    }
}

/// The spec value of counted entries.
pub open spec fn count_models(entries: Seq<(Plugin, u64)>) -> Seq<(PluginModel, u64)> {
    entries.map_values(|e: (Plugin, u64)| (e.0@, e.1))
}

/// How many projects use each plugin, in the order in which the plugins were first counted.
pub struct PluginCounts {
    entries: Vec<(Plugin, u64)>,
}

impl View for PluginCounts {
    type V = Seq<(PluginModel, u64)>;

    closed spec fn view(&self) -> Seq<(PluginModel, u64)> {
        count_models(self.entries@)
    }
}

impl PluginCounts {
    /// Each plugin has one entry at most.
    #[verifier::type_invariant]
    spec fn wf(self) -> bool {
        forall|i: int, j: int| 0 <= i < j < self@.len() ==> self@[i].0 != self@[j].0
    }

    /// No plugin counted yet.
    pub fn new() -> (r: Self)
        ensures
            r@ == Seq::<(PluginModel, u64)>::empty(),
    {
        let r = PluginCounts { entries: Vec::new() };
        assert(r@ =~= Seq::<(PluginModel, u64)>::empty());
        r
    }

    /// Whether no plugin is counted.
    pub fn is_empty(&self) -> (r: bool)
        ensures
            r == (self@.len() == 0),
    {
        self.entries.len() == 0
    }

    /// The plugins and their counts.
    pub fn entries(&self) -> (r: &Vec<(Plugin, u64)>)
        ensures
            count_models(r@) == self@,
    {
        &self.entries
    }

    /// The plugins and their counts, ordered by name with case ignored.
    pub fn entries_by_name(&self) -> (r: Vec<(Plugin, u64)>)
        ensures
            count_models(r@).to_multiset() == self@.to_multiset(),
            crate::order::counts_sorted_by_name(count_models(r@)),
    {
        crate::order::sort_counts_by_name(&self.entries)
    }

    /// Counts one more use of `plugin`.
    pub fn record(&mut self, plugin: &Plugin)
        ensures
            forall|i: int, j: int|
                0 <= i < j < final(self)@.len() ==> final(self)@[i].0 != final(self)@[j].0,
            forall|i: int|
                0 <= i < old(self)@.len() && (#[trigger] old(self)@[i]).0 == plugin@ ==> final(self)@
                    == old(self)@.update(i, (plugin@, count_up(old(self)@[i].1))),
            (forall|i: int| 0 <= i < old(self)@.len() ==> old(self)@[i].0 != plugin@)
                ==> final(self)@ == old(self)@.push((plugin@, 1u64)),
    {
        proof {
            use_type_invariant(&*self);
        }
        let ghost before = self@;
        let mut entries: Vec<(Plugin, u64)> = Vec::new();
        std::mem::swap(&mut entries, &mut self.entries);
        let mut i: usize = 0;
        while i < entries.len()
            invariant
                count_models(entries@) == before,
                before == old(self)@,
                forall|a: int, b: int| 0 <= a < b < before.len() ==> before[a].0 != before[b].0,
                0 <= i <= before.len(),
                forall|k: int| 0 <= k < i ==> before[k].0 != plugin@,
            decreases before.len() - i,
        {
            if entries[i].0.guid == plugin.guid && entries[i].0.name == plugin.name {
                let c = entries[i].1;
                let counted = if c == u64::MAX {
                    c
                } else {
                    c + 1
                };
                let copy = Plugin { guid: plugin.guid.clone(), name: plugin.name.clone() };
                entries.set(i, (copy, counted));
                assert(count_models(entries@) =~= before.update(
                    i as int,
                    (plugin@, count_up(before[i as int].1)),
                ));
                self.entries = entries;
                return;
            }
            i += 1;
        }
        let copy = Plugin { guid: plugin.guid.clone(), name: plugin.name.clone() };
        entries.push((copy, 1));
        assert(count_models(entries@) =~= before.push((plugin@, 1u64)));
        self.entries = entries;
    }
}

} // verus!
