//! The byte layout of a project file, as spec functions over the raw bytes.
use vstd::prelude::*;

use crate::project::{MetadataModel, PluginModel, ProjectModel};
use crate::reader::Error;

verus! {

/// First byte of both markers: the ASCII letter `P`.
pub const LETTER_P: u8 = 80;

/// Bytes between the end of the version marker and the application name field.
pub const APPLICATION_GAP: usize = 9;

/// Bytes between the application name field and the version field.
pub const VERSION_GAP: usize = 3;

/// Bytes between the version field and the release date field.
pub const RELEASE_DATE_GAP: usize = 3;

/// Bytes between the release date field and the architecture field.
pub const ARCHITECTURE_GAP: usize = 7;

/// Bytes between the end of the plugin marker and the GUID field.
pub const GUID_GAP: usize = 22;

/// Bytes between the GUID field and the "Plugin Name" key.
pub const NAME_KEY_GAP: usize = 3;

/// Bytes between the "Plugin Name" key and the plugin name field.
pub const NAME_GAP: usize = 5;

/// Bytes between the plugin name field and the key that follows it.
pub const NEXT_KEY_GAP: usize = 3;

/// Bytes between the "Original Plugin Name" key and the original name field.
pub const ORIGINAL_NAME_GAP: usize = 5;

/// `"PAppVersion\0"`: the marker in front of the metadata fields.
pub open spec fn app_version_marker() -> Seq<u8> {
    seq![80u8, 65, 112, 112, 86, 101, 114, 115, 105, 111, 110, 0]
}

/// `"Plugin UID\0"`: the marker in front of a plugin record.
pub open spec fn plugin_uid_marker() -> Seq<u8> {
    seq![80u8, 108, 117, 103, 105, 110, 32, 85, 73, 68, 0]
}

/// The text that lossy UTF-8 decoding makes of some bytes, invalid sequences replaced.
pub uninterp spec fn lossy_text(bytes: Seq<u8>) -> Seq<char>;

/// Index of the first nul byte of `p`, or its length when it holds none.
pub open spec fn nul_position(p: Seq<u8>) -> int
    decreases p.len(),
{
    if p.len() == 0 {
        0
    } else if p[0] == 0 {
        0
    } else {
        1 + nul_position(p.drop_first())
    }
}

/// The first nul byte of `p` is at `i`, or `p` holds none and `i` is its length.
pub proof fn lemma_nul_position(p: Seq<u8>, i: int)
    requires
        0 <= i <= p.len(),
        forall|j: int| 0 <= j < i ==> p[j] != 0,
        i == p.len() || p[i] == 0,
    ensures
        nul_position(p) == i,
    decreases i,
{
    if i > 0 {
        lemma_nul_position(p.drop_first(), i - 1);
    }
}

/// The text of a field's payload: everything before the first nul byte, decoded leniently.
pub open spec fn field_text(payload: Seq<u8>) -> Seq<char> {
    lossy_text(payload.take(nul_position(payload)))
}

/// The length-prefixed field at `i`: its text and the number of bytes it takes up.
pub open spec fn token_at(b: Seq<u8>, i: int) -> Result<(Seq<char>, int), Error> {
    if i < 0 || i >= b.len() {
        Err(Error::LengthBeyondEOF)
    } else {
        let n = b[i] as int;
        if i + 1 + n > b.len() {
            Err(Error::TokenBeyondEOF)
        } else {
            Ok((field_text(b.subrange(i + 1, i + 1 + n)), n + 1))
        }
    }
}

/// `m` stands in `b` at offset `i`.
pub open spec fn marker_at(b: Seq<u8>, i: int, m: Seq<u8>) -> bool {
    0 <= i && i + m.len() <= b.len() && b.subrange(i, i + m.len()) == m
}

/// The version text without a leading `"Version "`.
pub open spec fn strip_version_prefix(v: Seq<char>) -> Seq<char> {
    let p = "Version "@;
    if p.len() <= v.len() && v.subrange(0, p.len() as int) == p {
        v.subrange(p.len() as int, v.len() as int)
    } else {
        v
    }
}

/// The metadata record at `i`, and the offset after the last field it consumed;
/// `Ok(None)` where the version marker does not stand at `i`.
pub open spec fn metadata_at(b: Seq<u8>, i: int) -> Result<Option<(MetadataModel, int)>, Error> {
    if !marker_at(b, i, app_version_marker()) {
        Ok(None)
    } else {
        let a = i + app_version_marker().len() + APPLICATION_GAP;
        match token_at(b, a) {
            Err(_) => Err(Error::NoApplication),
            Ok((application, n1)) => {
                let v = a + n1 + VERSION_GAP;
                match token_at(b, v) {
                    Err(_) => Err(Error::NoVersion),
                    Ok((version, n2)) => {
                        let d = v + n2 + RELEASE_DATE_GAP;
                        match token_at(b, d) {
                            Err(_) => Err(Error::NoReleaseDate),
                            Ok((release_date, n3)) => {
                                let r = d + n3 + ARCHITECTURE_GAP;
                                let (architecture, end) = match token_at(b, r) {
                                    Ok((t, n4)) => (t, r + n4),
                                    Err(_) => ("Unspecified"@, r),
                                };
                                Ok(
                                    Some(
                                        (
                                            MetadataModel {
                                                application,
                                                version: strip_version_prefix(version),
                                                release_date,
                                                architecture,
                                            },
                                            end,
                                        ),
                                    ),
                                )
                            },
                        }
                    },
                }
            },
        }
    }
}

/// The plugin record at `i`, and the offset after the last field that belongs to it;
/// `Ok(None)` where the plugin marker does not stand at `i`.
pub open spec fn plugin_at(b: Seq<u8>, i: int) -> Result<Option<(PluginModel, int)>, Error> {
    if !marker_at(b, i, plugin_uid_marker()) {
        Ok(None)
    } else {
        let g = i + plugin_uid_marker().len() + GUID_GAP;
        match token_at(b, g) {
            Err(_) => Err(Error::NoPluginGUID),
            Ok((guid, n1)) => {
                let k = g + n1 + NAME_KEY_GAP;
                match token_at(b, k) {
                    Err(_) => Err(Error::NoPluginName),
                    Ok((key, n2)) => {
                        if key != "Plugin Name"@ {
                            Err(Error::NoPluginName)
                        } else {
                            let m = k + n2 + NAME_GAP;
                            match token_at(b, m) {
                                Err(_) => Err(Error::NoPluginName),
                                Ok((name, n3)) => {
                                    let k2 = m + n3 + NEXT_KEY_GAP;
                                    match token_at(b, k2) {
                                        Err(_) => Err(Error::NoTokenAfterPluginName),
                                        Ok((next_key, n4)) => {
                                            if next_key == "Original Plugin Name"@ {
                                                let o = k2 + n4 + ORIGINAL_NAME_GAP;
                                                match token_at(b, o) {
                                                    Err(_) => Err(Error::NoOriginalPluginName),
                                                    Ok((original, n5)) => Ok(
                                                        Some((PluginModel { guid, name: original }, o + n5)),
                                                    ),
                                                }
                                            } else {
                                                Ok(Some((PluginModel { guid, name }, k2)))
                                            }
                                        },
                                    }
                                },
                            }
                        }
                    },
                }
            },
        }
    }
}

/// A field takes up at least its length byte.
pub proof fn lemma_token_size(b: Seq<u8>, i: int)
    ensures
        token_at(b, i) matches Ok((_, n)) ==> 1 <= n && i + n <= b.len(),
{
}

/// A metadata record ends past the offset it starts at.
pub proof fn lemma_metadata_advances(b: Seq<u8>, i: int)
    ensures
        metadata_at(b, i) matches Ok(Some((_, j))) ==> j > i,
{
}

/// A plugin record ends past the offset it starts at.
pub proof fn lemma_plugin_advances(b: Seq<u8>, i: int)
    ensures
        plugin_at(b, i) matches Ok(Some((_, j))) ==> j > i,
{
    let g = i + plugin_uid_marker().len() + GUID_GAP;
    lemma_token_size(b, g);
}

/// Adds `p` to a sequence of distinct plugins unless it is already there.
pub open spec fn insert_plugin(ps: Seq<PluginModel>, p: PluginModel) -> Seq<PluginModel> {
    if ps.contains(p) {
        ps
    } else {
        ps.push(p)
    }
}

/// The outcome of scanning `b` from offset `i` on, with the metadata found so far and the
/// plugins collected so far.
pub open spec fn scan(
    b: Seq<u8>,
    i: int,
    found: Option<MetadataModel>,
    plugins: Seq<PluginModel>,
) -> Result<ProjectModel, Error>
    decreases
            if i < b.len() {
                b.len() - i
            } else {
                0
            },
{
    if i < 0 || i >= b.len() {
        match found {
            Some(metadata) => Ok(ProjectModel { metadata, plugins }),
            None => Err(Error::CorruptProject),
        }
    } else if b[i] != LETTER_P {
        scan(b, i + 1, found, plugins)
    } else {
        proof {
            lemma_metadata_advances(b, i);
            lemma_plugin_advances(b, i);
        }
        let meta = if found is None {
            metadata_at(b, i)
        } else {
            Ok(None)
        };
        match meta {
            Err(e) => Err(e),
            Ok(Some((m, j))) => scan(b, j, Some(m), plugins),
            Ok(None) => match plugin_at(b, i) {
                Err(e) => Err(e),
                Ok(Some((p, j))) => scan(b, j, found, insert_plugin(plugins, p)),
                Ok(None) => scan(b, i + 1, found, plugins),
            },
        }
    }
}

/// What a project file with bytes `b` holds: its metadata and its distinct plugins.
pub open spec fn project_details(b: Seq<u8>) -> Result<ProjectModel, Error> {
    scan(b, 0, None, Seq::empty())
}

/// Scanning from either of two cursors that are as good as each other gives one outcome.
pub proof fn lemma_scan_same_cursor(
    b: Seq<u8>,
    i: int,
    j: int,
    found: Option<MetadataModel>,
    plugins: Seq<PluginModel>,
)
    requires
        same_cursor(b.len() as int, i, j),
    ensures
        scan(b, i, found, plugins) == scan(b, j, found, plugins),
{
}

/// Two cursors are as good as each other: equal, or both at or past the end.
pub open spec fn same_cursor(len: int, a: int, b: int) -> bool {
    a == b || (a >= len && b >= len)
}

} // verus!
