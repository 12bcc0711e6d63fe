//! Plugins in the order of their names, case ignored.
use vstd::prelude::*;
use vstd::seq_lib::{to_multiset_build, to_multiset_insert};

use crate::project::{Plugin, PluginModel};
use crate::reader::plugin_models;
use crate::report::count_models;

verus! {

/// The lowercase form of a text.
pub uninterp spec fn lower_of(s: Seq<char>) -> Seq<char>;

/// Relies on `str::to_lowercase`: the result depends on the text alone.
#[verifier::external_body]
fn lowercase(s: &str) -> (r: String)
    ensures
        r@ == lower_of(s@),
{
    s.to_lowercase()
}

/// `a` comes no later than `b`: compared character by character, by code point, with a
/// prefix first.
pub open spec fn text_le(a: Seq<char>, b: Seq<char>) -> bool
    decreases a.len(),
{
    if a.len() == 0 {
        true
    } else if b.len() == 0 {
        false
    } else if a[0] != b[0] {
        a[0] < b[0]
    } else {
        text_le(a.drop_first(), b.drop_first())
    }
}

/// Of two texts, one comes no later than the other.
pub proof fn lemma_text_le_total(a: Seq<char>, b: Seq<char>)
    ensures
        text_le(a, b) || text_le(b, a),
    decreases a.len(),
{
    if a.len() > 0 && b.len() > 0 && a[0] == b[0] {
        lemma_text_le_total(a.drop_first(), b.drop_first());
    }
}

/// The order is transitive.
pub proof fn lemma_text_le_transitive(a: Seq<char>, b: Seq<char>, c: Seq<char>)
    requires
        text_le(a, b),
        text_le(b, c),
    ensures
        text_le(a, c),
    decreases a.len(),
{
    if a.len() > 0 && b.len() > 0 && c.len() > 0 && a[0] == b[0] && b[0] == c[0] {
        lemma_text_le_transitive(a.drop_first(), b.drop_first(), c.drop_first());
    }
}

/// Whether `a` comes no later than `b`.
fn text_le_exec(a: &str, b: &str) -> (r: bool)
    ensures
        r == text_le(a@, b@),
{
    let a_len = a.unicode_len();
    let b_len = b.unicode_len();
    let mut i: usize = 0;
    assert(a@.skip(0) =~= a@ && b@.skip(0) =~= b@);
    while i < a_len && i < b_len
        invariant
            a_len == a@.len(),
            b_len == b@.len(),
            0 <= i <= a_len,
            i <= b_len,
            text_le(a@, b@) == text_le(a@.skip(i as int), b@.skip(i as int)),
        decreases a_len - i,
    {
        let ca = a.get_char(i);
        let cb = b.get_char(i);
        assert(a@.skip(i as int)[0] == ca && b@.skip(i as int)[0] == cb);
        if ca != cb {
            return ca < cb;
        }
        assert(a@.skip(i as int).drop_first() =~= a@.skip(i + 1));
        assert(b@.skip(i as int).drop_first() =~= b@.skip(i + 1));
        i += 1;
    }
    i == a_len
}

/// Each text of `keys` comes no later than those after it.
pub open spec fn keys_sorted(keys: Seq<String>) -> bool {
    forall|a: int, b: int| 0 <= a < b < keys.len() ==> text_le(keys[a]@, keys[b]@)
}

/// Where `key` goes into sorted `keys`: after every key that comes no later than it.
fn insertion_point(keys: &Vec<String>, key: &String) -> (p: usize)
    requires
        keys_sorted(keys@),
    ensures
        p <= keys@.len(),
        forall|k: int| 0 <= k < p ==> text_le(keys@[k]@, key@),
        forall|k: int| p <= k < keys@.len() ==> text_le(key@, keys@[k]@),
{
    let mut p: usize = 0;
    while p < keys.len()
        invariant
            keys_sorted(keys@),
            p <= keys@.len(),
            forall|k: int| 0 <= k < p ==> text_le(keys@[k]@, key@),
        decreases keys@.len() - p,
    {
        if !text_le_exec(keys[p].as_str(), key.as_str()) {
            proof {
                lemma_text_le_total(keys@[p as int]@, key@);
                assert forall|k: int| p <= k < keys@.len() implies text_le(key@, keys@[k]@) by {
                    if k > p {
                        lemma_text_le_transitive(key@, keys@[p as int]@, keys@[k]@);
                    }
                }
            }
            return p;
        }
        p += 1;
    }
    p
}

/// Inserting a key at its insertion point keeps the keys sorted.
proof fn lemma_insert_sorted(keys: Seq<String>, p: int, key: String)
    requires
        keys_sorted(keys),
        0 <= p <= keys.len(),
        forall|k: int| 0 <= k < p ==> text_le(keys[k]@, key@),
        forall|k: int| p <= k < keys.len() ==> text_le(key@, keys[k]@),
    ensures
        keys_sorted(keys.insert(p, key)),
{
    let s = keys.insert(p, key);
    assert forall|a: int, b: int| 0 <= a < b < s.len() implies text_le(s[a]@, s[b]@) by {
        if a < p && b > p {
            assert(s[a] == keys[a] && s[b] == keys[b - 1]);
        } else if a < p && b == p {
            assert(s[a] == keys[a]);
        } else if a == p {
            assert(s[b] == keys[b - 1]);
        } else if a < p {
            assert(s[a] == keys[a] && s[b] == keys[b]);
        } else {
            assert(s[a] == keys[a - 1] && s[b] == keys[b - 1]);
        }
    }
}

/// The plugins in the order of their names' lowercase forms.
pub open spec fn sorted_by_name(ps: Seq<PluginModel>) -> bool {
    forall|a: int, b: int| 0 <= a < b < ps.len() ==> text_le(lower_of(ps[a].name), lower_of(ps[b].name))
}

/// The same plugins, ordered by name with case ignored.
pub fn sort_by_name(plugins: &Vec<Plugin>) -> (r: Vec<Plugin>)
    ensures
        plugin_models(r@).to_multiset() == plugin_models(plugins@).to_multiset(),
        sorted_by_name(plugin_models(r@)),
{
    let ghost models = plugin_models(plugins@);
    let mut sorted: Vec<Plugin> = Vec::new();
    let mut keys: Vec<String> = Vec::new();
    let mut i: usize = 0;
    assert(plugin_models(sorted@) =~= models.take(0));
    while i < plugins.len()
        invariant
            models == plugin_models(plugins@),
            0 <= i <= plugins@.len(),
            keys@.len() == sorted@.len(),
            forall|k: int| 0 <= k < keys@.len() ==> keys@[k]@ == lower_of(#[trigger] sorted@[k].name@),
            keys_sorted(keys@),
            plugin_models(sorted@).to_multiset() == models.take(i as int).to_multiset(),
        decreases plugins@.len() - i,
    {
        let p = &plugins[i];
        let key = lowercase(p.name.as_str());
        let at = insertion_point(&keys, &key);
        proof {
            lemma_insert_sorted(keys@, at as int, key);
        }
        let ghost before = sorted@;
        keys.insert(at, key);
        sorted.insert(at, Plugin { guid: p.guid.clone(), name: p.name.clone() });
        proof {
            assert(plugin_models(sorted@) =~= plugin_models(before).insert(at as int, p@));
            to_multiset_insert(plugin_models(before), at as int, p@);
            assert(models.take(i + 1) =~= models.take(i as int).push(p@));
            to_multiset_build(models.take(i as int), p@);
            assert forall|k: int| 0 <= k < keys@.len() implies keys@[k]@ == lower_of(
                #[trigger] sorted@[k].name@,
            ) by {
                if k > at {
                    assert(sorted@[k] == before[k - 1]);
                }
            }
        }
        i += 1;
    }
    assert(models.take(plugins@.len() as int) =~= models);
    proof {
        assert forall|a: int, b: int| 0 <= a < b < sorted@.len() implies text_le(
            lower_of(plugin_models(sorted@)[a].name),
            lower_of(plugin_models(sorted@)[b].name),
        ) by {
            assert(text_le(keys@[a]@, keys@[b]@));
        }
    }
    sorted
}

/// The counted plugins in the order of their names' lowercase forms.
pub open spec fn counts_sorted_by_name(cs: Seq<(PluginModel, u64)>) -> bool {
    forall|a: int, b: int|
        0 <= a < b < cs.len() ==> text_le(lower_of(cs[a].0.name), lower_of(cs[b].0.name))
}

/// The same counted plugins, ordered by name with case ignored.
pub fn sort_counts_by_name(entries: &Vec<(Plugin, u64)>) -> (r: Vec<(Plugin, u64)>)
    ensures
        count_models(r@).to_multiset() == count_models(entries@).to_multiset(),
        counts_sorted_by_name(count_models(r@)),
{
    let ghost models = count_models(entries@);
    let mut sorted: Vec<(Plugin, u64)> = Vec::new();
    let mut keys: Vec<String> = Vec::new();
    let mut i: usize = 0;
    assert(count_models(sorted@) =~= models.take(0));
    while i < entries.len()
        invariant
            models == count_models(entries@),
            0 <= i <= entries@.len(),
            keys@.len() == sorted@.len(),
            forall|k: int| 0 <= k < keys@.len() ==> keys@[k]@ == lower_of(#[trigger] sorted@[k].0.name@),
            keys_sorted(keys@),
            count_models(sorted@).to_multiset() == models.take(i as int).to_multiset(),
        decreases entries@.len() - i,
    {
        let e = &entries[i];
        let key = lowercase(e.0.name.as_str());
        let at = insertion_point(&keys, &key);
        proof {
            lemma_insert_sorted(keys@, at as int, key);
        }
        let ghost before = sorted@;
        keys.insert(at, key);
        let copy = Plugin { guid: e.0.guid.clone(), name: e.0.name.clone() };
        sorted.insert(at, (copy, e.1));
        proof {
            assert(count_models(sorted@) =~= count_models(before).insert(at as int, models[i as int]));
            to_multiset_insert(count_models(before), at as int, models[i as int]);
            assert(models.take(i + 1) =~= models.take(i as int).push(models[i as int]));
            to_multiset_build(models.take(i as int), models[i as int]);
            assert forall|k: int| 0 <= k < keys@.len() implies keys@[k]@ == lower_of(
                #[trigger] sorted@[k].0.name@,
            ) by {
                if k > at {
                    assert(sorted@[k] == before[k - 1]);
                }
            }
        }
        i += 1;
    }
    assert(models.take(entries@.len() as int) =~= models);
    proof {
        assert forall|a: int, b: int| 0 <= a < b < sorted@.len() implies text_le(
            lower_of(count_models(sorted@)[a].0.name),
            lower_of(count_models(sorted@)[b].0.name),
        ) by {
            assert(text_le(keys@[a]@, keys@[b]@));
        }
    }
    sorted
}

} // verus!
