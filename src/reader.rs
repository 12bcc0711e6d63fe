use vstd::prelude::*;
use vstd::utf8::{decode_utf8, valid_utf8};

use crate::format::{
    app_version_marker, insert_plugin, lemma_scan_same_cursor, lossy_text, metadata_at,
    nul_position, plugin_at, plugin_uid_marker, project_details, same_cursor, scan,
    strip_version_prefix, token_at, APPLICATION_GAP, ARCHITECTURE_GAP, GUID_GAP, LETTER_P,
    NAME_GAP, NAME_KEY_GAP, NEXT_KEY_GAP, ORIGINAL_NAME_GAP, RELEASE_DATE_GAP, VERSION_GAP,
};
use crate::project::{Metadata, MetadataModel, Plugin, PluginModel, Project, ProjectModel};

verus! {

/// Why the details of a project could not be read.
#[derive(Debug, Clone, Copy, PartialEq, Eq, Structural)]
pub enum Error {
    /// The length byte goes beyond the end of the project.
    LengthBeyondEOF,
    /// The token size goes beyond the end of the project.
    TokenBeyondEOF,
    /// The project has no metadata and appears to be corrupt.
    CorruptProject,
    /// Unable to obtain the application name.
    NoApplication,
    /// Unable to obtain the application version.
    NoVersion,
    /// Unable to obtain the application release date.
    NoReleaseDate,
    /// Unable to obtain a plugin GUID.
    NoPluginGUID,
    /// Unable to obtain a plugin name.
    NoPluginName,
    /// Unable to obtain the token after a plugin name.
    NoTokenAfterPluginName,
    /// Unable to obtain an original plugin name.
    NoOriginalPluginName,
}

/// Relies on `String::from_utf8_lossy`: its result depends on the bytes alone, and bytes that
/// are valid UTF-8 decode to the text they encode.
#[verifier::external_body]
fn decode_lossy(bytes: &[u8]) -> (r: String)
    ensures
        r@ == lossy_text(bytes@),
        valid_utf8(bytes@) ==> r@ == decode_utf8(bytes@),
{
    String::from_utf8_lossy(bytes).into_owned()
}

/// The index of the first nul byte of `bytes`, or its length when it holds none.
fn find_nul(bytes: &[u8]) -> (r: usize)
    ensures
        r == nul_position(bytes@),
        r <= bytes@.len(),
{
    let mut i: usize = 0;
    while i < bytes.len() && bytes[i] != 0
        invariant
            0 <= i <= bytes@.len(),
            forall|j: int| 0 <= j < i ==> bytes@[j] != 0,
        decreases bytes@.len() - i,
    {
        i += 1;
    }
    proof {
        crate::format::lemma_nul_position(bytes@, i as int);
    }
    i
}

/// Whether two byte slices hold the same bytes.
fn bytes_equal(a: &[u8], b: &[u8]) -> (r: bool)
    ensures
        r == (a@ == b@),
{
    if a.len() != b.len() {
        return false;
    }
    let mut i: usize = 0;
    while i < a.len()
        invariant
            a@.len() == b@.len(),
            0 <= i <= a@.len(),
            forall|j: int| 0 <= j < i ==> a@[j] == b@[j],
        decreases a@.len() - i,
    {
        if a[i] != b[i] {
            return false;
        }
        i += 1;
    }
    assert(a@ =~= b@);
    true
}

/// The version text without a leading `"Version "`.
fn strip_version(version: String) -> (r: String)
    ensures
        r@ == strip_version_prefix(version@),
{
    let prefix = "Version ";
    let n = prefix.unicode_len();
    let len = version.as_str().unicode_len();
    if len < n {
        return version;
    }
    let mut i: usize = 0;
    while i < n
        invariant
            prefix@ == "Version "@,
            n == prefix@.len(),
            len == version@.len(),
            n <= len,
            0 <= i <= n,
            forall|j: int| 0 <= j < i ==> version@[j] == prefix@[j],
        decreases n - i,
    {
        if version.as_str().get_char(i) != prefix.get_char(i) {
            assert(version@.subrange(0, n as int)[i as int] != prefix@[i as int]);
            return version;
        }
        i += 1;
    }
    assert(version@.subrange(0, n as int) =~= prefix@);
    version.as_str().substring_char(n, len).to_string()
}

/// The spec value of a decoded metadata record.
pub open spec fn metadata_view(r: Result<Option<(Metadata, usize)>, Error>) -> Result<
    Option<(MetadataModel, int)>,
    Error,
> {
    match r {
        Ok(Some((m, i))) => Ok(Some((m@, i as int))),
        Ok(None) => Ok(None),
        Err(e) => Err(e),
    }
}

/// The spec value of a decoded plugin record.
pub open spec fn plugin_view(r: Result<Option<(Plugin, usize)>, Error>) -> Result<
    Option<(PluginModel, int)>,
    Error,
> {
    match r {
        Ok(Some((p, i))) => Ok(Some((p@, i as int))),
        Ok(None) => Ok(None),
        Err(e) => Err(e),
    }
}

/// The plugins of a list, as a sequence of their views.
pub open spec fn plugin_models(plugins: Seq<Plugin>) -> Seq<PluginModel> {
    plugins.map_values(|p: Plugin| p@)
}

/// The spec value of the outcome of reading a project.
pub open spec fn project_view(r: Result<Project, Error>) -> Result<ProjectModel, Error> {
    match r {
        Ok(p) => Ok(p@),
        Err(e) => Err(e),
    }
}

/// Adds `plugin` to a list of distinct plugins unless an equal one is already there.
fn add_plugin(plugins: &mut Vec<Plugin>, plugin: Plugin)
    requires
        plugin_models(old(plugins)@).no_duplicates(),
    ensures
        plugin_models(final(plugins)@) == insert_plugin(plugin_models(old(plugins)@), plugin@),
        plugin_models(final(plugins)@).no_duplicates(),
{
    let ghost models = plugin_models(plugins@);
    let mut i: usize = 0;
    while i < plugins.len()
        invariant
            plugins@ == old(plugins)@,
            models == plugin_models(plugins@),
            models.no_duplicates(),
            0 <= i <= plugins@.len(),
            forall|j: int| 0 <= j < i ==> models[j] != plugin@,
        decreases plugins@.len() - i,
    {
        if plugins[i].guid == plugin.guid && plugins[i].name == plugin.name {
            assert(models[i as int] == plugin@);
            return;
        }
        i += 1;
    }
    assert(!models.contains(plugin@));
    plugins.push(plugin);
    assert(plugin_models(plugins@) =~= models.push(plugin@));
}

/// Reads project details out of the bytes of a binary project file.
pub struct Reader<'a> {
    /// Binary project bytes.
    project_bytes: &'a [u8],
}

impl<'a> View for Reader<'a> {
    type V = Seq<u8>;

    closed spec fn view(&self) -> Seq<u8> {
        self.project_bytes@
    }
}

/// The spec value of a decoded field and its size.
pub open spec fn token_view(r: Result<(String, usize), Error>) -> Result<(Seq<char>, int), Error> {
    match r {
        Ok((t, n)) => Ok((t@, n as int)),
        Err(e) => Err(e),
    }
}

impl<'a> Reader<'a> {
    /// A reader over the bytes of one project file.
    pub fn new(project_bytes: &'a [u8]) -> (r: Self)
        ensures
            r@ == project_bytes@,
    {
        Reader { project_bytes }
    }

    /// Obtains the application version and all plugins that the project uses.
    pub fn get_project_details(&self) -> (r: Result<Project, Error>)
        ensures
            project_view(r) == project_details(self@),
            r matches Ok(p) ==> p.wf(),
    {
        let mut metadata: Option<Metadata> = None;
        let mut plugins: Vec<Plugin> = Vec::new();
        let ghost found: Option<MetadataModel> = None;
        assert(plugin_models(plugins@) =~= Seq::<PluginModel>::empty());

        let mut index: usize = 0;
        while index < self.project_bytes.len()
            invariant
                scan(self@, index as int, found, plugin_models(plugins@)) == project_details(self@),
                plugin_models(plugins@).no_duplicates(),
                metadata matches Some(m) ==> found == Some(m@),
                metadata is None ==> found is None,
            decreases
                if index < self@.len() {
                    self@.len() - index
                } else {
                    0
                },
        {
            // Both markers begin with the letter P.
            if self.project_bytes[index] != LETTER_P {
                index += 1;
                continue;
            }

            // Check whether the version marker stands here.
            if metadata.is_none() {
                match self.search_metadata(index) {
                    Err(e) => return Err(e),
                    Ok(Some((found_metadata, updated_index))) => {
                        proof {
                            found = Some(found_metadata@);
                            lemma_scan_same_cursor(
                                self@,
                                updated_index as int,
                                metadata_at(self@, index as int)->Ok_0->Some_0.1,
                                found,
                                plugin_models(plugins@),
                            );
                        }
                        metadata = Some(found_metadata);
                        index = updated_index;
                        continue;
                    },
                    Ok(None) => {},
                }
            }

            // Check whether a plugin record stands here.
            match self.search_plugin(index) {
                Err(e) => return Err(e),
                Ok(Some((found_plugin, updated_index))) => {
                    add_plugin(&mut plugins, found_plugin);
                    index = updated_index;
                    continue;
                },
                Ok(None) => {},
            }

            index += 1;
        }

        match metadata {
            Some(metadata) => Ok(Project { metadata, plugins }),
            None => Err(Error::CorruptProject),
        }
    }

    /// The `len` bytes from `index` on, where they lie within the file.
    fn get_bytes(&self, index: usize, len: usize) -> (r: Option<&[u8]>)
        ensures
            self@.len() <= usize::MAX,
            r is Some <==> index + len <= self@.len(),
            r matches Some(s) ==> s@ == self@.subrange(index as int, index + len),
    {
        if len > self.project_bytes.len() || index > self.project_bytes.len() - len {
            return None;
        }
        Some(vstd::slice::slice_subrange(self.project_bytes, index, index + len))
    }

    /// The length-prefixed field at `index`: its text and the number of bytes it takes up.
    fn get_token(&self, index: usize) -> (r: Result<(String, usize), Error>)
        ensures
            token_view(r) == token_at(self@, index as int),
            self@.len() <= usize::MAX,
    {
        let len_bytes = match self.get_bytes(index, 1) {
            Some(s) => s,
            None => return Err(Error::LengthBeyondEOF),
        };
        let len = len_bytes[0] as usize;
        let token_bytes = match self.get_bytes(index + 1, len) {
            Some(s) => s,
            None => return Err(Error::TokenBeyondEOF),
        };
        // Files older than Cubase 5 do not always end a token with a nul byte.
        let nul_index = find_nul(token_bytes);
        let token = decode_lossy(vstd::slice::slice_subrange(token_bytes, 0, nul_index));
        proof {
            assert(token_bytes@.subrange(0, nul_index as int) =~= token_bytes@.take(nul_index as int));
        }
        Ok((token, len + 1))
    }

    /// Whether `marker` stands at `index`.
    fn marker_at(&self, index: usize, marker: &[u8]) -> (r: bool)
        ensures
            r == crate::format::marker_at(self@, index as int, marker@),
    {
        match self.get_bytes(index, marker.len()) {
            Some(s) => bytes_equal(s, marker),
            None => false,
        }
    }

    /// The metadata record at `index` and the offset after it, where the version marker stands
    /// there. An offset that would pass `usize::MAX` is held there: it is past the end either way.
    fn search_metadata(&self, index: usize) -> (r: Result<Option<(Metadata, usize)>, Error>)
        ensures
            match (metadata_view(r), metadata_at(self@, index as int)) {
                (Ok(Some((m, end))), Ok(Some((m2, end2)))) => {
                    &&& m == m2
                    &&& same_cursor(self@.len() as int, end, end2)
                    &&& end > index
                },
                (x, y) => x == y,
            },
    {
        // "PAppVersion\0"
        let marker: Vec<u8> = vec![80, 65, 112, 112, 86, 101, 114, 115, 105, 111, 110, 0];
        assert(marker@ == app_version_marker());
        if !self.marker_at(index, marker.as_slice()) {
            return Ok(None);
        }
        let mut index = index.saturating_add(marker.len() + APPLICATION_GAP);

        let (application, len) = match self.get_token(index) {
            Ok(t) => t,
            Err(_) => return Err(Error::NoApplication),
        };
        index = index.saturating_add(len + VERSION_GAP);

        let (version, len) = match self.get_token(index) {
            Ok(t) => t,
            Err(_) => return Err(Error::NoVersion),
        };
        index = index.saturating_add(len + RELEASE_DATE_GAP);

        let version = strip_version(version);

        let (release_date, len) = match self.get_token(index) {
            Ok(t) => t,
            Err(_) => return Err(Error::NoReleaseDate),
        };
        index = index.saturating_add(len + ARCHITECTURE_GAP);

        // Older 32-bit versions of Cubase did not list the architecture in the project file.
        let architecture = match self.get_token(index) {
            Ok((architecture, len)) => {
                index = index + len;
                architecture
            },
            Err(_) => String::from_str("Unspecified"),
        };

        Ok(Some((Metadata { application, version, release_date, architecture }, index)))
    }

    /// The plugin record at `index` and the offset after it, where the plugin marker stands there.
    fn search_plugin(&self, index: usize) -> (r: Result<Option<(Plugin, usize)>, Error>)
        ensures
            plugin_view(r) == plugin_at(self@, index as int),
            r matches Ok(Some((_, end))) ==> end > index,
    {
        proof {
            crate::format::lemma_plugin_advances(self@, index as int);
        }
        // "Plugin UID\0"
        let marker: Vec<u8> = vec![80, 108, 117, 103, 105, 110, 32, 85, 73, 68, 0];
        assert(marker@ == plugin_uid_marker());
        if !self.marker_at(index, marker.as_slice()) {
            return Ok(None);
        }
        let mut index = index.saturating_add(marker.len() + GUID_GAP);

        let (guid, len) = match self.get_token(index) {
            Ok(t) => t,
            Err(_) => return Err(Error::NoPluginGUID),
        };
        index = index.saturating_add(len + NAME_KEY_GAP);

        let (key, len) = match self.get_token(index) {
            Ok(t) => t,
            Err(_) => return Err(Error::NoPluginName),
        };
        if !(key == String::from_str("Plugin Name")) {
            return Err(Error::NoPluginName);
        }
        index = index.saturating_add(len + NAME_GAP);

        let (mut name, len) = match self.get_token(index) {
            Ok(t) => t,
            Err(_) => return Err(Error::NoPluginName),
        };
        index = index.saturating_add(len + NEXT_KEY_GAP);

        // From Cubase 8 on, where an instrument track was renamed, the name read above is the
        // track's title and the plugin's name follows under the key "Original Plugin Name".
        let (key, len) = match self.get_token(index) {
            Ok(t) => t,
            Err(_) => return Err(Error::NoTokenAfterPluginName),
        };
        if key == String::from_str("Original Plugin Name") {
            index = index.saturating_add(len + ORIGINAL_NAME_GAP);

            let (original_name, len) = match self.get_token(index) {
                Ok(t) => t,
                Err(_) => return Err(Error::NoOriginalPluginName),
            };
            name = original_name;
            index = index + len;
        }

        Ok(Some((Plugin { guid, name }, index)))
    }
}

} // verus!
