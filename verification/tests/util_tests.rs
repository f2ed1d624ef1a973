//! Audio types, destination paths, permission bits and the run
//! configuration on concrete values.

use dumptruckrss::config::DumpConfig;
use dumptruckrss::error::RssDumpError;
use dumptruckrss::ext::AudioType;
use dumptruckrss::utils::{create_file_path, does_dir_exist, is_path_readable, is_path_writable};

#[test]
fn audio_types_from_mime() {
    assert!(matches!(AudioType::get_type_from_mime("audio/mpeg"), AudioType::Mpeg));
    assert!(matches!(AudioType::get_type_from_mime("audio/aac"), AudioType::Aac));
    assert!(matches!(AudioType::get_type_from_mime("audio/ogg"), AudioType::Ogg));
    assert!(matches!(AudioType::get_type_from_mime("audio/mp4"), AudioType::Mp4));
    assert!(matches!(AudioType::get_type_from_mime("audio/x-m4a"), AudioType::M4a));
    assert!(AudioType::get_type_from_mime_checked("text/plain").is_none());
}

#[test]
fn extensions_from_types() {
    assert_eq!(AudioType::get_extension_from_type(AudioType::Mpeg), "mp3");
    assert_eq!(AudioType::get_extension_from_type(AudioType::Aac), "aac");
    assert_eq!(AudioType::get_extension_from_type(AudioType::Ogg), "ogg");
    assert_eq!(AudioType::get_extension_from_type(AudioType::Mp4), "mp4");
    assert_eq!(AudioType::get_extension_from_type(AudioType::M4a), "m4a");
    assert_eq!(AudioType::get_extension_from_mime("audio/ogg"), "ogg");
}

#[test]
fn destination_paths_are_deterministic() {
    assert_eq!(
        create_file_path("/tmp/out", "audio/mpeg", "Episode 5"),
        "/tmp/out/Episode 5.mp3".to_owned()
    );
    // path separators in the title are sanitized
    assert_eq!(
        create_file_path("/tmp/out", "audio/x-m4a", "a/b/c"),
        "/tmp/out/a-b-c.m4a".to_owned()
    );
}

#[test]
fn permission_bits() {
    assert!(is_path_readable(0o744));
    assert!(is_path_writable(0o744));
    assert!(is_path_readable(0o444));
    assert!(!is_path_writable(0o444));
    assert!(!is_path_readable(0o044));
}

#[test]
fn dir_existence_combines_probes() {
    assert!(does_dir_exist(true, true));
    assert!(!does_dir_exist(true, false));
    assert!(!does_dir_exist(false, true));
    assert!(!does_dir_exist(false, false));
}

#[test]
fn config_fields_and_probe_errors() {
    let c = DumpConfig::new_output_is_dir("/tmp/out", 4, "http://example.com/feed", 300);
    assert_eq!(c.get_output(), "/tmp/out");
    assert_eq!(c.get_output_display(), "/tmp/out".to_owned());
    assert_eq!(c.get_n_downloads(), 4);
    assert_eq!(c.get_feed(), "http://example.com/feed");
    assert!(c.is_output_dir_read(0o755));
    assert!(c.is_output_dir_write(0o755));

    let ok = DumpConfig::new_output_is_file("/tmp/feed.xml", 1, "u", 300, false).unwrap();
    assert!(ok.output_is_file);
    let err = DumpConfig::new_output_is_file("/tmp/out", 1, "u", 300, true).err().unwrap();
    assert_eq!(err, RssDumpError::OutputIsDirectory("/tmp/out".to_owned()));
}
