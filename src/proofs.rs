//! What holds of every project file: lemmas over the byte layout of `format`.
use vstd::prelude::*;

use crate::format::{
    app_version_marker, insert_plugin, marker_at, metadata_at, plugin_at, plugin_uid_marker,
    project_details, scan, strip_version_prefix, field_text, token_at, APPLICATION_GAP,
    ARCHITECTURE_GAP, GUID_GAP, LETTER_P, NAME_GAP, NAME_KEY_GAP, NEXT_KEY_GAP, ORIGINAL_NAME_GAP,
    RELEASE_DATE_GAP, VERSION_GAP,
};
use crate::project::{MetadataModel, PluginModel, Project, ProjectModel};
use crate::reader::{project_view, Error};

verus! {

/// `payload` stands at `i` as a length-prefixed field.
pub open spec fn field_at(b: Seq<u8>, i: int, payload: Seq<u8>) -> bool {
    &&& payload.len() <= 255
    &&& 0 <= i
    &&& i + 1 + payload.len() <= b.len()
    &&& b[i] as int == payload.len()
    &&& b.subrange(i + 1, i + 1 + payload.len()) == payload
}

/// The offset just past a field with `payload` that starts at `i`.
pub open spec fn field_end(i: int, payload: Seq<u8>) -> int {
    i + 1 + payload.len()
}

/// Where the application name field of a metadata record at `s` starts.
pub open spec fn application_offset(s: int) -> int {
    s + app_version_marker().len() + APPLICATION_GAP
}

/// Where the version field starts, after an application name field.
pub open spec fn version_offset(s: int, application: Seq<u8>) -> int {
    field_end(application_offset(s), application) + VERSION_GAP
}

/// Where the release date field starts, after the version field.
pub open spec fn release_date_offset(s: int, application: Seq<u8>, version: Seq<u8>) -> int {
    field_end(version_offset(s, application), version) + RELEASE_DATE_GAP
}

/// Where the architecture field starts, after the release date field.
pub open spec fn architecture_offset(
    s: int,
    application: Seq<u8>,
    version: Seq<u8>,
    release_date: Seq<u8>,
) -> int {
    field_end(release_date_offset(s, application, version), release_date) + ARCHITECTURE_GAP
}

/// The version marker stands at `s`, followed by the application name, version and release
/// date fields at their places.
pub open spec fn metadata_head_at(
    b: Seq<u8>,
    s: int,
    application: Seq<u8>,
    version: Seq<u8>,
    release_date: Seq<u8>,
) -> bool {
    &&& marker_at(b, s, app_version_marker())
    &&& field_at(b, application_offset(s), application)
    &&& field_at(b, version_offset(s, application), version)
    &&& field_at(b, release_date_offset(s, application, version), release_date)
}

/// The metadata that fields with these payloads decode to.
pub open spec fn decoded_metadata(
    application: Seq<u8>,
    version: Seq<u8>,
    release_date: Seq<u8>,
    architecture: Seq<char>,
) -> MetadataModel {
    MetadataModel {
        application: field_text(application),
        version: strip_version_prefix(field_text(version)),
        release_date: field_text(release_date),
        architecture,
    }
}

/// No marker of either kind starts at an offset in `[i, j)`.
pub open spec fn no_marker_between(b: Seq<u8>, i: int, j: int) -> bool {
    forall|k: int|
        i <= k < j ==> !#[trigger] marker_at(b, k, app_version_marker()) && !marker_at(
            b,
            k,
            plugin_uid_marker(),
        )
}

/// A field that stands at `i` decodes to its text.
pub proof fn lemma_field_decodes(b: Seq<u8>, i: int, payload: Seq<u8>)
    requires
        field_at(b, i, payload),
    ensures
        token_at(b, i) == Ok::<(Seq<char>, int), Error>((field_text(payload), payload.len() + 1 as int)),
{
}

/// The scan passes over bytes where no marker starts.
pub proof fn lemma_skip(
    b: Seq<u8>,
    i: int,
    j: int,
    found: Option<MetadataModel>,
    plugins: Seq<PluginModel>,
)
    requires
        0 <= i <= j <= b.len(),
        no_marker_between(b, i, j),
    ensures
        scan(b, i, found, plugins) == scan(b, j, found, plugins),
    decreases j - i,
{
    if i < j {
        assert(!marker_at(b, i, app_version_marker()));
        assert(!marker_at(b, i, plugin_uid_marker()));
        assert(scan(b, i, found, plugins) == scan(b, i + 1, found, plugins));
        lemma_skip(b, i + 1, j, found, plugins);
    }
}

/// Once the metadata is found, it is what the scan returns, if it succeeds.
pub proof fn lemma_scan_keeps_metadata(
    b: Seq<u8>,
    i: int,
    m: MetadataModel,
    plugins: Seq<PluginModel>,
)
    ensures
        scan(b, i, Some(m), plugins) matches Ok(p) ==> p.metadata == m,
    decreases
            if i < b.len() {
                b.len() - i
            } else {
                0
            },
{
    if 0 <= i < b.len() {
        if b[i] != LETTER_P {
            lemma_scan_keeps_metadata(b, i + 1, m, plugins);
        } else {
            crate::format::lemma_plugin_advances(b, i);
            match plugin_at(b, i) {
                Ok(Some((p, j))) => lemma_scan_keeps_metadata(b, j, m, insert_plugin(plugins, p)),
                Ok(None) => lemma_scan_keeps_metadata(b, i + 1, m, plugins),
                Err(_) => {},
            }
        }
    }
}

/// A project file whose first marker is a well-formed metadata record gives that record's
/// fields, the version without its `"Version "` prefix; where no marker follows it, the
/// project has those metadata and no plugins.
pub proof fn lemma_metadata_decoded(
    b: Seq<u8>,
    s: int,
    application: Seq<u8>,
    version: Seq<u8>,
    release_date: Seq<u8>,
    architecture: Seq<u8>,
)
    requires
        0 <= s,
        metadata_head_at(b, s, application, version, release_date),
        field_at(b, architecture_offset(s, application, version, release_date), architecture),
        no_marker_between(b, 0, s),
    ensures
        ({
            let m = decoded_metadata(application, version, release_date, field_text(architecture));
            let end = field_end(
                architecture_offset(s, application, version, release_date),
                architecture,
            );
            &&& project_details(b) matches Ok(p) ==> p.metadata == m
            &&& no_marker_between(b, end, b.len() as int) ==> project_details(b) == Ok::<
                ProjectModel,
                Error,
            >(ProjectModel { metadata: m, plugins: Seq::empty() })
        }),
{
    let m = decoded_metadata(application, version, release_date, field_text(architecture));
    let r = architecture_offset(s, application, version, release_date);
    let end = field_end(r, architecture);
    lemma_field_decodes(b, application_offset(s), application);
    lemma_field_decodes(b, version_offset(s, application), version);
    lemma_field_decodes(b, release_date_offset(s, application, version), release_date);
    lemma_field_decodes(b, r, architecture);
    assert(metadata_at(b, s) == Ok::<Option<(MetadataModel, int)>, Error>(Some((m, end))));
    assert(b[s] == LETTER_P) by {
        assert(b.subrange(s, s + app_version_marker().len())[0] == app_version_marker()[0]);
    }
    lemma_skip(b, 0, s, None, Seq::empty());
    assert(project_details(b) == scan(b, end, Some(m), Seq::empty()));
    lemma_scan_keeps_metadata(b, end, m, Seq::empty());
    if no_marker_between(b, end, b.len() as int) {
        lemma_skip(b, end, b.len() as int, Some(m), Seq::empty());
    }
}

/// Where the architecture field's length byte points past the end of the file, the metadata
/// still decode, with the architecture `"Unspecified"`; where no marker starts from that byte
/// on, the project has those metadata and no plugins.
pub proof fn lemma_architecture_unspecified(
    b: Seq<u8>,
    s: int,
    application: Seq<u8>,
    version: Seq<u8>,
    release_date: Seq<u8>,
)
    requires
        0 <= s,
        metadata_head_at(b, s, application, version, release_date),
        architecture_offset(s, application, version, release_date) < b.len(),
        ({
            let r = architecture_offset(s, application, version, release_date);
            r + 1 + b[r] as int > b.len()
        }),
        no_marker_between(b, 0, s),
    ensures
        ({
            let m = decoded_metadata(application, version, release_date, "Unspecified"@);
            let r = architecture_offset(s, application, version, release_date);
            &&& project_details(b) matches Ok(p) ==> p.metadata == m
            &&& project_details(b) matches Ok(p) ==> p.metadata.architecture == "Unspecified"@
            &&& no_marker_between(b, r, b.len() as int) ==> project_details(b) == Ok::<
                ProjectModel,
                Error,
            >(ProjectModel { metadata: m, plugins: Seq::empty() })
        }),
{
    let m = decoded_metadata(application, version, release_date, "Unspecified"@);
    let r = architecture_offset(s, application, version, release_date);
    lemma_field_decodes(b, application_offset(s), application);
    lemma_field_decodes(b, version_offset(s, application), version);
    lemma_field_decodes(b, release_date_offset(s, application, version), release_date);
    assert(token_at(b, r) is Err);
    assert(metadata_at(b, s) == Ok::<Option<(MetadataModel, int)>, Error>(Some((m, r))));
    assert(b[s] == LETTER_P) by {
        assert(b.subrange(s, s + app_version_marker().len())[0] == app_version_marker()[0]);
    }
    lemma_skip(b, 0, s, None, Seq::empty());
    assert(project_details(b) == scan(b, r, Some(m), Seq::empty()));
    lemma_scan_keeps_metadata(b, r, m, Seq::empty());
    if no_marker_between(b, r, b.len() as int) {
        lemma_skip(b, r, b.len() as int, Some(m), Seq::empty());
    }
}

/// Without metadata found so far and with no version marker ahead, the scan fails; it fails
/// with `CorruptProject` unless a broken plugin record stops it first.
pub proof fn lemma_scan_without_metadata(b: Seq<u8>, i: int, plugins: Seq<PluginModel>)
    requires
        0 <= i,
        forall|k: int| i <= k < b.len() ==> !#[trigger] marker_at(b, k, app_version_marker()),
    ensures
        scan(b, i, None, plugins) is Err,
        (forall|k: int| i <= k < b.len() ==> !(#[trigger] plugin_at(b, k) is Err)) ==> scan(
            b,
            i,
            None,
            plugins,
        ) == Err::<ProjectModel, Error>(Error::CorruptProject),
    decreases
            if i < b.len() {
                b.len() - i
            } else {
                0
            },
{
    if i < b.len() {
        assert(!marker_at(b, i, app_version_marker()));
        if b[i] != LETTER_P {
            lemma_scan_without_metadata(b, i + 1, plugins);
        } else {
            crate::format::lemma_plugin_advances(b, i);
            match plugin_at(b, i) {
                Ok(Some((p, j))) => {
                    lemma_scan_without_metadata(b, j, insert_plugin(plugins, p));
                },
                Ok(None) => lemma_scan_without_metadata(b, i + 1, plugins),
                Err(_) => {},
            }
        }
    }
}

/// A file without the version marker has no metadata: reading it fails, with `CorruptProject`
/// unless a broken plugin record stops the scan first.
pub proof fn lemma_no_marker_is_corrupt(b: Seq<u8>)
    requires
        forall|k: int| 0 <= k < b.len() ==> !#[trigger] marker_at(b, k, app_version_marker()),
    ensures
        project_details(b) is Err,
        (forall|k: int| 0 <= k < b.len() ==> !(#[trigger] plugin_at(b, k) is Err))
            ==> project_details(b) == Err::<ProjectModel, Error>(Error::CorruptProject),
{
    lemma_scan_without_metadata(b, 0, Seq::empty());
}

/// An empty file is not a project.
pub proof fn lemma_empty_is_corrupt()
    ensures
        project_details(Seq::empty()) == Err::<ProjectModel, Error>(Error::CorruptProject),
{
}

/// A marker that starts with the letter P puts that letter where it stands.
pub proof fn lemma_marker_letter(b: Seq<u8>, i: int, m: Seq<u8>)
    requires
        marker_at(b, i, m),
        m.len() > 0,
        m[0] == LETTER_P,
    ensures
        b[i] == LETTER_P,
{
    assert(b.subrange(i, i + m.len())[0] == m[0]);
}

/// Where the GUID field of a plugin record at `i` starts.
pub open spec fn guid_offset(i: int) -> int {
    i + plugin_uid_marker().len() + GUID_GAP
}

/// Where the "Plugin Name" key starts, after the GUID field.
pub open spec fn name_key_offset(i: int, guid: Seq<u8>) -> int {
    field_end(guid_offset(i), guid) + NAME_KEY_GAP
}

/// Where the plugin name field starts, after the "Plugin Name" key.
pub open spec fn name_offset(i: int, guid: Seq<u8>, name_key: Seq<u8>) -> int {
    field_end(name_key_offset(i, guid), name_key) + NAME_GAP
}

/// Where the key after the plugin name starts.
pub open spec fn next_key_offset(i: int, guid: Seq<u8>, name_key: Seq<u8>, name: Seq<u8>) -> int {
    field_end(name_offset(i, guid, name_key), name) + NEXT_KEY_GAP
}

/// Where the original name field starts, after an "Original Plugin Name" key.
pub open spec fn original_name_offset(
    i: int,
    guid: Seq<u8>,
    name_key: Seq<u8>,
    name: Seq<u8>,
    next_key: Seq<u8>,
) -> int {
    field_end(next_key_offset(i, guid, name_key, name), next_key) + ORIGINAL_NAME_GAP
}

/// The plugin marker stands at `i`, followed by the GUID field, a key that reads
/// "Plugin Name", the name field and the key after it, at their places.
pub open spec fn plugin_record_at(
    b: Seq<u8>,
    i: int,
    guid: Seq<u8>,
    name_key: Seq<u8>,
    name: Seq<u8>,
    next_key: Seq<u8>,
) -> bool {
    &&& marker_at(b, i, plugin_uid_marker())
    &&& field_at(b, guid_offset(i), guid)
    &&& field_at(b, name_key_offset(i, guid), name_key)
    &&& field_text(name_key) == "Plugin Name"@
    &&& field_at(b, name_offset(i, guid, name_key), name)
    &&& field_at(b, next_key_offset(i, guid, name_key, name), next_key)
}

/// A plugin record whose name is followed by an "Original Plugin Name" field gives the
/// original name, not the name read first.
pub proof fn lemma_original_name_wins(
    b: Seq<u8>,
    i: int,
    guid: Seq<u8>,
    name_key: Seq<u8>,
    name: Seq<u8>,
    next_key: Seq<u8>,
    original: Seq<u8>,
)
    requires
        plugin_record_at(b, i, guid, name_key, name, next_key),
        field_text(next_key) == "Original Plugin Name"@,
        field_at(b, original_name_offset(i, guid, name_key, name, next_key), original),
    ensures
        plugin_at(b, i) == Ok::<Option<(PluginModel, int)>, Error>(
            Some(
                (
                    PluginModel { guid: field_text(guid), name: field_text(original) },
                    field_end(original_name_offset(i, guid, name_key, name, next_key), original),
                ),
            ),
        ),
{
    lemma_field_decodes(b, guid_offset(i), guid);
    lemma_field_decodes(b, name_key_offset(i, guid), name_key);
    lemma_field_decodes(b, name_offset(i, guid, name_key), name);
    lemma_field_decodes(b, next_key_offset(i, guid, name_key, name), next_key);
    lemma_field_decodes(b, original_name_offset(i, guid, name_key, name, next_key), original);
}

/// A plugin record whose name is followed by any other key gives the name read first, and
/// the scan goes on at that key.
pub proof fn lemma_plugin_name_stands(
    b: Seq<u8>,
    i: int,
    guid: Seq<u8>,
    name_key: Seq<u8>,
    name: Seq<u8>,
    next_key: Seq<u8>,
)
    requires
        plugin_record_at(b, i, guid, name_key, name, next_key),
        field_text(next_key) != "Original Plugin Name"@,
    ensures
        plugin_at(b, i) == Ok::<Option<(PluginModel, int)>, Error>(
            Some(
                (
                    PluginModel { guid: field_text(guid), name: field_text(name) },
                    next_key_offset(i, guid, name_key, name),
                ),
            ),
        ),
{
    lemma_field_decodes(b, guid_offset(i), guid);
    lemma_field_decodes(b, name_key_offset(i, guid), name_key);
    lemma_field_decodes(b, name_offset(i, guid, name_key), name);
    lemma_field_decodes(b, next_key_offset(i, guid, name_key, name), next_key);
}

/// Wherever the scan stands at a plugin marker that the file ends right after, with the gap
/// before the GUID field, the scan fails with `NoPluginGUID`.
pub proof fn lemma_truncated_before_guid(
    b: Seq<u8>,
    i: int,
    found: Option<MetadataModel>,
    plugins: Seq<PluginModel>,
)
    requires
        marker_at(b, i, plugin_uid_marker()),
        b.len() == guid_offset(i),
    ensures
        scan(b, i, found, plugins) == Err::<ProjectModel, Error>(Error::NoPluginGUID),
{
    lemma_marker_letter(b, i, plugin_uid_marker());
    assert(!marker_at(b, i, app_version_marker())) by {
        assert(b.subrange(i, i + plugin_uid_marker().len())[1] == plugin_uid_marker()[1]);
        if marker_at(b, i, app_version_marker()) {
            assert(b.subrange(i, i + app_version_marker().len())[1] == app_version_marker()[1]);
        }
    }
}

/// A file that ends right after a plugin marker and the gap that follows it, with no marker
/// before, or only a metadata record, fails with `NoPluginGUID`.
pub proof fn lemma_truncated_file_before_guid(
    b: Seq<u8>,
    i: int,
    s: int,
    m: MetadataModel,
    meta_end: int,
)
    requires
        0 <= i,
        marker_at(b, i, plugin_uid_marker()),
        b.len() == guid_offset(i),
        no_marker_between(b, 0, i) || (0 <= s && s < meta_end <= i && metadata_at(b, s) == Ok::<
            Option<(MetadataModel, int)>,
            Error,
        >(Some((m, meta_end))) && no_marker_between(b, 0, s) && no_marker_between(
            b,
            meta_end,
            i,
        )),
    ensures
        project_details(b) == Err::<ProjectModel, Error>(Error::NoPluginGUID),
{
    if no_marker_between(b, 0, i) {
        lemma_skip(b, 0, i, None, Seq::empty());
        lemma_truncated_before_guid(b, i, None, Seq::empty());
    } else {
        lemma_marker_letter(b, s, app_version_marker());
        lemma_skip(b, 0, s, None, Seq::empty());
        lemma_skip(b, meta_end, i, Some(m), Seq::empty());
        lemma_truncated_before_guid(b, i, Some(m), Seq::empty());
    }
}

/// The plugins of a sequence of records, each listed once, in the order of its first record.
pub open spec fn distinct_plugins(ps: Seq<PluginModel>) -> Seq<PluginModel>
    decreases ps.len(),
{
    if ps.len() == 0 {
        ps
    } else {
        insert_plugin(distinct_plugins(ps.drop_last()), ps.last())
    }
}

/// The distinct plugins of `ps` hold each plugin of `ps` once, and nothing else; where `ps`
/// repeats none, they are `ps` itself.
pub proof fn lemma_distinct_plugins(ps: Seq<PluginModel>)
    ensures
        distinct_plugins(ps).no_duplicates(),
        distinct_plugins(ps).to_set() == ps.to_set(),
        ps.no_duplicates() ==> distinct_plugins(ps) == ps,
    decreases ps.len(),
{
    if ps.len() > 0 {
        let init = ps.drop_last();
        let d = distinct_plugins(init);
        lemma_distinct_plugins(init);
        assert(ps =~= init.push(ps.last()));
        assert(ps.to_set() =~= init.to_set().insert(ps.last())) by {
            assert forall|p: PluginModel| ps.to_set().contains(p) <==> init.to_set().insert(
                ps.last(),
            ).contains(p) by {
                if ps.contains(p) {
                    let k = choose|k: int| 0 <= k < ps.len() && ps[k] == p;
                    if k < ps.len() - 1 {
                        assert(init[k] == p);
                    }
                }
                if init.contains(p) {
                    let k = choose|k: int| 0 <= k < init.len() && init[k] == p;
                    assert(ps[k] == p);
                }
            }
        }
        if d.contains(ps.last()) {
            assert(d.to_set().insert(ps.last()) =~= d.to_set());
        } else {
            assert(d.push(ps.last()).to_set() =~= d.to_set().insert(ps.last())) by {
                assert forall|p: PluginModel| d.push(ps.last()).contains(p) <==> d.to_set().insert(
                    ps.last(),
                ).contains(p) by {
                    if d.push(ps.last()).contains(p) {
                        let k = choose|k: int| 0 <= k < d.len() + 1 && d.push(ps.last())[k] == p;
                        if k < d.len() {
                            assert(d[k] == p);
                        }
                    }
                    if d.contains(p) {
                        let k = choose|k: int| 0 <= k < d.len() && d[k] == p;
                        assert(d.push(ps.last())[k] == p);
                    }
                    if p == ps.last() {
                        assert(d.push(ps.last())[d.len() as int] == p);
                    }
                }
            }
            assert(d.push(ps.last()).no_duplicates()) by {
                assert forall|a: int, c: int|
                    0 <= a < d.len() + 1 && 0 <= c < d.len() + 1 && a != c implies d.push(
                        ps.last(),
                    )[a] != d.push(ps.last())[c] by {
                    if a < d.len() && c == d.len() {
                        assert(d.contains(d[a]));
                    }
                    if c < d.len() && a == d.len() {
                        assert(d.contains(d[c]));
                    }
                }
            }
        }
        if ps.no_duplicates() {
            assert(init.no_duplicates()) by {
                assert forall|a: int, c: int|
                    0 <= a < init.len() && 0 <= c < init.len() && a != c implies init[a]
                    != init[c] by {
                    assert(init[a] == ps[a] && init[c] == ps[c]);
                }
            }
            assert(!init.contains(ps.last())) by {
                if init.contains(ps.last()) {
                    let k = choose|k: int| 0 <= k < init.len() && init[k] == ps.last();
                    assert(ps[k] == ps[ps.len() - 1]);
                }
            }
        }
    }
}

/// Where the gap before the `n`-th plugin record starts: after the metadata record, or after
/// the plugin record before it.
pub open spec fn gap_start(meta_end: int, ends: Seq<int>, n: int) -> int {
    if n == 0 {
        meta_end
    } else {
        ends[n - 1]
    }
}

/// Where the gap before the `n`-th plugin record ends: at that record, or at the end of the
/// file after the last one.
pub open spec fn gap_end(b: Seq<u8>, starts: Seq<int>, n: int) -> int {
    if n < starts.len() {
        starts[n]
    } else {
        b.len() as int
    }
}

/// After the metadata record that ends at `meta_end`, plugin records stand at `starts`, end at
/// `ends` and decode to `ps`, with no marker in the gaps between them.
pub open spec fn plugin_records_at(
    b: Seq<u8>,
    meta_end: int,
    starts: Seq<int>,
    ends: Seq<int>,
    ps: Seq<PluginModel>,
) -> bool {
    &&& starts.len() == ps.len()
    &&& ends.len() == ps.len()
    &&& forall|n: int|
        0 <= n < ps.len() ==> #[trigger] plugin_at(b, starts[n]) == Ok::<
            Option<(PluginModel, int)>,
            Error,
        >(Some((ps[n], ends[n])))
    &&& forall|n: int|
        0 <= n <= ps.len() ==> 0 <= #[trigger] gap_start(meta_end, ends, n) <= gap_end(
            b,
            starts,
            n,
        ) <= b.len() && no_marker_between(b, gap_start(meta_end, ends, n), gap_end(b, starts, n))
}

/// From the gap before the `n`-th record on, the scan collects the remaining records.
proof fn lemma_scan_records(
    b: Seq<u8>,
    m: MetadataModel,
    meta_end: int,
    starts: Seq<int>,
    ends: Seq<int>,
    ps: Seq<PluginModel>,
    n: int,
)
    requires
        plugin_records_at(b, meta_end, starts, ends, ps),
        0 <= n <= ps.len(),
    ensures
        scan(b, gap_start(meta_end, ends, n), Some(m), distinct_plugins(ps.take(n))) == Ok::<
            ProjectModel,
            Error,
        >(ProjectModel { metadata: m, plugins: distinct_plugins(ps) }),
    decreases ps.len() - n,
{
    assert(0 <= gap_start(meta_end, ends, n) <= gap_end(b, starts, n) <= b.len());
    lemma_skip(
        b,
        gap_start(meta_end, ends, n),
        gap_end(b, starts, n),
        Some(m),
        distinct_plugins(ps.take(n)),
    );
    if n == ps.len() {
        assert(ps.take(n) =~= ps);
    } else {
        let i = starts[n];
        assert(plugin_at(b, i) == Ok::<Option<(PluginModel, int)>, Error>(Some((ps[n], ends[n]))));
        lemma_marker_letter(b, i, plugin_uid_marker());
        assert(ps.take(n + 1).drop_last() =~= ps.take(n));
        assert(gap_start(meta_end, ends, n + 1) == ends[n]);
        lemma_scan_records(b, m, meta_end, starts, ends, ps, n + 1);
    }
}

/// A file whose first marker starts a metadata record, followed by plugin records with no
/// marker between them, lists each plugin of those records once: as many plugins as the
/// records hold distinct ones, and all of them where no two are equal.
pub proof fn lemma_plugins_collected(
    b: Seq<u8>,
    s: int,
    m: MetadataModel,
    meta_end: int,
    starts: Seq<int>,
    ends: Seq<int>,
    ps: Seq<PluginModel>,
)
    requires
        0 <= s,
        metadata_at(b, s) == Ok::<Option<(MetadataModel, int)>, Error>(Some((m, meta_end))),
        no_marker_between(b, 0, s),
        plugin_records_at(b, meta_end, starts, ends, ps),
    ensures
        project_details(b) == Ok::<ProjectModel, Error>(
            ProjectModel { metadata: m, plugins: distinct_plugins(ps) },
        ),
        distinct_plugins(ps).no_duplicates(),
        distinct_plugins(ps).to_set() == ps.to_set(),
        ps.no_duplicates() ==> distinct_plugins(ps) == ps,
{
    lemma_marker_letter(b, s, app_version_marker());
    lemma_skip(b, 0, s, None, Seq::empty());
    assert(ps.take(0) =~= Seq::<PluginModel>::empty());
    assert(gap_start(meta_end, ends, 0) == meta_end);
    lemma_scan_records(b, m, meta_end, starts, ends, ps, 0);
    lemma_distinct_plugins(ps);
}

/// Reading the same bytes twice gives the same outcome, field for field: reading keeps no
/// state between calls.
pub proof fn lemma_read_deterministic(
    b1: Seq<u8>,
    b2: Seq<u8>,
    r1: Result<Project, Error>,
    r2: Result<Project, Error>,
)
    requires
        b1 == b2,
        project_view(r1) == project_details(b1),
        project_view(r2) == project_details(b2),
    ensures
        project_view(r1) == project_view(r2),
{
}

} // verus!
