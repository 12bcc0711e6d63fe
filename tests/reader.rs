use cubase_project_plugins::project::{Metadata, Plugin, Project};
use cubase_project_plugins::reader::{Error, Reader};

fn field(text: &[u8]) -> Vec<u8> {
    let mut v = vec![text.len() as u8];
    v.extend_from_slice(text);
    v
}

fn metadata_record(app: &[u8], version: &[u8], date: &[u8], arch: Option<&[u8]>) -> Vec<u8> {
    let mut v = b"PAppVersion\0".to_vec();
    v.extend_from_slice(&[0; 9]);
    v.extend(field(app));
    v.extend_from_slice(&[0; 3]);
    v.extend(field(version));
    v.extend_from_slice(&[0; 3]);
    v.extend(field(date));
    v.extend_from_slice(&[0; 7]);
    if let Some(arch) = arch {
        v.extend(field(arch));
    }
    v
}

fn plugin_record(guid: &[u8], name: &[u8], original: Option<&[u8]>) -> Vec<u8> {
    let mut v = b"Plugin UID\0".to_vec();
    v.extend_from_slice(&[0; 22]);
    v.extend(field(guid));
    v.extend_from_slice(&[0; 3]);
    v.extend(field(b"Plugin Name\0"));
    v.extend_from_slice(&[0; 5]);
    v.extend(field(name));
    v.extend_from_slice(&[0; 3]);
    match original {
        Some(original) => {
            v.extend(field(b"Original Plugin Name\0"));
            v.extend_from_slice(&[0; 5]);
            v.extend(field(original));
        }
        None => v.extend(field(b"Flags\0")),
    }
    v
}

fn standard_metadata() -> Vec<u8> {
    metadata_record(b"Cubase\0", b"Version 13.0.10\0", b"Oct 10 2023\0", Some(b"WIN64\0"))
}

fn read(bytes: &[u8]) -> Result<Project, Error> {
    Reader::new(bytes).get_project_details()
}

fn plugin(guid: &str, name: &str) -> Plugin {
    Plugin { guid: guid.to_string(), name: name.to_string() }
}

#[test]
fn get_project_details_invalid_project() {
    let project_bytes = Vec::new();

    let reader = Reader::new(&project_bytes);
    let project_details = reader.get_project_details();

    assert_eq!(project_details.unwrap_err(), Error::CorruptProject);
}

#[test]
fn metadata_fields_are_decoded() {
    let mut bytes = vec![1, 2, 3];
    bytes.extend(standard_metadata());
    bytes.extend_from_slice(&[9, 9, 9]);
    let project = read(&bytes).unwrap();
    assert_eq!(
        project.metadata,
        Metadata {
            application: "Cubase".to_string(),
            version: "13.0.10".to_string(),
            release_date: "Oct 10 2023".to_string(),
            architecture: "WIN64".to_string(),
        }
    );
    assert!(project.plugins.is_empty());
}

#[test]
fn version_without_prefix_is_kept() {
    let bytes = metadata_record(b"Cubase\0", b"4.5.2\0", b"Sep  2 2008\0", Some(b"WIN32\0"));
    let project = read(&bytes).unwrap();
    assert_eq!(project.metadata.version, "4.5.2");
    assert_eq!(project.metadata.architecture, "WIN32");
}

#[test]
fn fields_without_nul_are_taken_whole() {
    let bytes = metadata_record(b"Cubase SX", b"Version 3.1.1", b"Oct 13 2005", Some(b"MAC64 LE"));
    let project = read(&bytes).unwrap();
    assert_eq!(project.metadata.application, "Cubase SX");
    assert_eq!(project.metadata.version, "3.1.1");
    assert_eq!(project.metadata.release_date, "Oct 13 2005");
    assert_eq!(project.metadata.architecture, "MAC64 LE");
}

#[test]
fn bytes_after_nul_are_padding() {
    let bytes = metadata_record(b"Cubase\0xyz", b"Version 5.5.3\0\0\0", b"Jan 13 2011\0", Some(b"WIN32\0"));
    let project = read(&bytes).unwrap();
    assert_eq!(project.metadata.application, "Cubase");
    assert_eq!(project.metadata.version, "5.5.3");
}

#[test]
fn invalid_utf8_is_replaced() {
    let bytes = metadata_record(b"Cu\xFFbase\0", b"1.0\0", b"today\0", Some(b"WIN64\0"));
    let project = read(&bytes).unwrap();
    assert_eq!(project.metadata.application, "Cu\u{FFFD}base");
}

#[test]
fn architecture_past_end_is_unspecified() {
    let mut bytes = metadata_record(b"Cubase SX\0", b"Version 3.1.1\0", b"Oct 13 2005\0", None);
    bytes.extend_from_slice(&[40, 1, 2, 3]);
    let project = read(&bytes).unwrap();
    assert_eq!(
        project.metadata,
        Metadata {
            application: "Cubase SX".to_string(),
            version: "3.1.1".to_string(),
            release_date: "Oct 13 2005".to_string(),
            architecture: "Unspecified".to_string(),
        }
    );
}

#[test]
fn missing_architecture_is_unspecified() {
    let bytes = metadata_record(b"Cubase\0", b"Version 4.5.2\0", b"Sep  2 2008\0", None);
    let project = read(&bytes).unwrap();
    assert_eq!(project.metadata.architecture, "Unspecified");
}

#[test]
fn no_version_marker_is_corrupt() {
    let mut bytes = b"PPPP some bytes".to_vec();
    bytes.extend(plugin_record(b"ABC\0", b"EQ\0", None));
    assert_eq!(read(&bytes).unwrap_err(), Error::CorruptProject);
}

#[test]
fn plugins_are_collected() {
    let mut bytes = standard_metadata();
    bytes.extend(plugin_record(b"1C3A662167D347A99F7D797EA4911CDB\0", b"Elephant\0", None));
    bytes.extend_from_slice(&[0, 1, 2]);
    bytes.extend(plugin_record(b"297BA567D83144E1AE921DEF07B41156\0", b"EQ\0", None));
    bytes.extend(plugin_record(b"D39D5B69D6AF42FA1234567868495645\0", b"Hive\0", None));
    let project = read(&bytes).unwrap();
    assert_eq!(
        project.plugins,
        vec![
            plugin("1C3A662167D347A99F7D797EA4911CDB", "Elephant"),
            plugin("297BA567D83144E1AE921DEF07B41156", "EQ"),
            plugin("D39D5B69D6AF42FA1234567868495645", "Hive"),
        ]
    );
}

#[test]
fn repeated_plugins_collapse() {
    let mut bytes = standard_metadata();
    bytes.extend(plugin_record(b"AAAA\0", b"TrackComp\0", None));
    bytes.extend(plugin_record(b"BBBB\0", b"StudioEQ\0", None));
    bytes.extend(plugin_record(b"AAAA\0", b"TrackComp\0", None));
    bytes.extend(plugin_record(b"AAAA\0", b"Other Name\0", None));
    let project = read(&bytes).unwrap();
    assert_eq!(
        project.plugins,
        vec![
            plugin("AAAA", "TrackComp"),
            plugin("BBBB", "StudioEQ"),
            plugin("AAAA", "Other Name"),
        ]
    );
}

#[test]
fn plugins_before_metadata_count() {
    let mut bytes = plugin_record(b"AAAA\0", b"Omnisphere\0", None);
    bytes.extend(standard_metadata());
    let project = read(&bytes).unwrap();
    assert_eq!(project.plugins, vec![plugin("AAAA", "Omnisphere")]);
    assert_eq!(project.metadata.application, "Cubase");
}

#[test]
fn original_plugin_name_replaces_track_name() {
    let mut bytes = standard_metadata();
    bytes.extend(plugin_record(b"565354416D62726F6D6E697370686572\0", b"My Pad\0", Some(b"Omnisphere\0")));
    bytes.extend(plugin_record(b"D39D5B69D6AF42FA1234567868495645\0", b"Hive\0", None));
    let project = read(&bytes).unwrap();
    assert_eq!(
        project.plugins,
        vec![
            plugin("565354416D62726F6D6E697370686572", "Omnisphere"),
            plugin("D39D5B69D6AF42FA1234567868495645", "Hive"),
        ]
    );
}

#[test]
fn truncated_before_guid() {
    let mut bytes = standard_metadata();
    bytes.extend_from_slice(b"Plugin UID\0");
    bytes.extend_from_slice(&[0; 22]);
    assert_eq!(read(&bytes).unwrap_err(), Error::NoPluginGUID);
}

#[test]
fn truncated_before_guid_without_metadata() {
    let mut bytes = b"Plugin UID\0".to_vec();
    bytes.extend_from_slice(&[0; 22]);
    assert_eq!(read(&bytes).unwrap_err(), Error::NoPluginGUID);
}

#[test]
fn guid_beyond_end() {
    let mut bytes = standard_metadata();
    bytes.extend_from_slice(b"Plugin UID\0");
    bytes.extend_from_slice(&[0; 22]);
    bytes.extend_from_slice(&[10, 65, 66]);
    assert_eq!(read(&bytes).unwrap_err(), Error::NoPluginGUID);
}

#[test]
fn truncated_application() {
    let mut bytes = b"PAppVersion\0".to_vec();
    bytes.extend_from_slice(&[0; 9]);
    bytes.extend_from_slice(&[7, 67, 117]);
    assert_eq!(read(&bytes).unwrap_err(), Error::NoApplication);
}

#[test]
fn truncated_version() {
    let mut bytes = b"PAppVersion\0".to_vec();
    bytes.extend_from_slice(&[0; 9]);
    bytes.extend(field(b"Cubase\0"));
    bytes.extend_from_slice(&[0; 3]);
    assert_eq!(read(&bytes).unwrap_err(), Error::NoVersion);
}

#[test]
fn truncated_release_date() {
    let mut bytes = b"PAppVersion\0".to_vec();
    bytes.extend_from_slice(&[0; 9]);
    bytes.extend(field(b"Cubase\0"));
    bytes.extend_from_slice(&[0; 3]);
    bytes.extend(field(b"Version 7.0.7\0"));
    bytes.extend_from_slice(&[0; 3]);
    bytes.push(30);
    assert_eq!(read(&bytes).unwrap_err(), Error::NoReleaseDate);
}

#[test]
fn truncated_plugin_name_tag() {
    let mut bytes = standard_metadata();
    bytes.extend_from_slice(b"Plugin UID\0");
    bytes.extend_from_slice(&[0; 22]);
    bytes.extend(field(b"ABCD\0"));
    bytes.extend_from_slice(&[0; 3]);
    assert_eq!(read(&bytes).unwrap_err(), Error::NoPluginName);
}

#[test]
fn wrong_plugin_name_tag() {
    let mut bytes = standard_metadata();
    bytes.extend_from_slice(b"Plugin UID\0");
    bytes.extend_from_slice(&[0; 22]);
    bytes.extend(field(b"ABCD\0"));
    bytes.extend_from_slice(&[0; 3]);
    bytes.extend(field(b"Plugin Title\0"));
    bytes.extend_from_slice(&[0; 5]);
    bytes.extend(field(b"EQ\0"));
    bytes.extend_from_slice(&[0; 3]);
    bytes.extend(field(b"Flags\0"));
    assert_eq!(read(&bytes).unwrap_err(), Error::NoPluginName);
}

#[test]
fn truncated_plugin_name_value() {
    let mut bytes = standard_metadata();
    bytes.extend_from_slice(b"Plugin UID\0");
    bytes.extend_from_slice(&[0; 22]);
    bytes.extend(field(b"ABCD\0"));
    bytes.extend_from_slice(&[0; 3]);
    bytes.extend(field(b"Plugin Name\0"));
    bytes.extend_from_slice(&[0; 5]);
    assert_eq!(read(&bytes).unwrap_err(), Error::NoPluginName);
}

#[test]
fn truncated_tag_after_plugin_name() {
    let mut bytes = standard_metadata();
    bytes.extend_from_slice(b"Plugin UID\0");
    bytes.extend_from_slice(&[0; 22]);
    bytes.extend(field(b"ABCD\0"));
    bytes.extend_from_slice(&[0; 3]);
    bytes.extend(field(b"Plugin Name\0"));
    bytes.extend_from_slice(&[0; 5]);
    bytes.extend(field(b"EQ\0"));
    bytes.extend_from_slice(&[0; 3]);
    bytes.push(50);
    assert_eq!(read(&bytes).unwrap_err(), Error::NoTokenAfterPluginName);
}

#[test]
fn truncated_original_plugin_name() {
    let mut bytes = standard_metadata();
    bytes.extend_from_slice(b"Plugin UID\0");
    bytes.extend_from_slice(&[0; 22]);
    bytes.extend(field(b"ABCD\0"));
    bytes.extend_from_slice(&[0; 3]);
    bytes.extend(field(b"Plugin Name\0"));
    bytes.extend_from_slice(&[0; 5]);
    bytes.extend(field(b"My Track\0"));
    bytes.extend_from_slice(&[0; 3]);
    bytes.extend(field(b"Original Plugin Name\0"));
    bytes.extend_from_slice(&[0; 5]);
    assert_eq!(read(&bytes).unwrap_err(), Error::NoOriginalPluginName);
}

#[test]
fn reading_twice_gives_the_same_project() {
    let mut bytes = standard_metadata();
    bytes.extend(plugin_record(b"AAAA\0", b"TrackComp\0", None));
    bytes.extend(plugin_record(b"BBBB\0", b"Track\0", Some(b"StereoEnhancer\0")));
    let reader = Reader::new(&bytes);
    let first = reader.get_project_details().unwrap();
    let second = reader.get_project_details().unwrap();
    assert_eq!(first.metadata, second.metadata);
    assert_eq!(first.plugins, second.plugins);
}
