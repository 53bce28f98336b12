use mrms_pull::config::Config;
use mrms_pull::pull::{parse_content_length, Machine, Notice, PullAction, PullEvent};

fn test_config() -> Config {
    Config {
        server: "127.0.0.1".to_string(),
        port: 8080,
        version: "1.2".to_string(),
        dir: "./out".to_string(),
        project: "demo".to_string(),
        profile: "__default__".to_string(),
        auth: "secret".to_string(),
    }
}

#[test]
fn start_announces_and_requests_the_manifest() {
    let (_m, out) = Machine::start(test_config());
    assert_eq!(out.len(), 2);
    match &out[0] {
        PullAction::Announce(Notice::PullStart { project, server, profile }) => {
            assert_eq!(project, "demo");
            assert_eq!(server, "127.0.0.1");
            assert_eq!(profile, "__default__");
        },
        other => panic!("expected an announcement, got {}", name_of(other)),
    }
    match &out[1] {
        PullAction::FetchManifest(req) => {
            assert_eq!(req.url, "http://127.0.0.1:8080");
            assert_eq!(req.action, "pull-start");
            assert_eq!(req.project, "demo");
            assert_eq!(req.version, "1.2");
            assert_eq!(req.profile, "__default__");
            assert_eq!(req.auth, "secret");
            assert!(req.location.is_none());
        },
        other => panic!("expected the manifest request, got {}", name_of(other)),
    }
}

fn name_of(a: &PullAction) -> &'static str {
    match a {
        PullAction::FetchManifest(_) => "FetchManifest",
        PullAction::Announce(_) => "Announce",
        PullAction::MakeDirs(_) => "MakeDirs",
        PullAction::FetchFile(_) => "FetchFile",
        PullAction::OpenFile(_) => "OpenFile",
        PullAction::StartProgress(_) => "StartProgress",
        PullAction::Write(_) => "Write",
        PullAction::BumpProgress(_) => "BumpProgress",
        PullAction::NextChunk => "NextChunk",
        PullAction::FlushFile => "FlushFile",
        PullAction::EndProgress => "EndProgress",
        PullAction::Finish => "Finish",
        PullAction::Abort => "Abort",
    }
}

#[test]
fn a_full_run_downloads_every_file_in_manifest_order() {
    let (mut m, _) = Machine::start(test_config());

    // the manifest arrives
    let out = m.step(PullEvent::ManifestBody(
        "[\"releases/app.jar\", \"cfg/app.yml\"]".to_string(),
    ));
    assert_eq!(out.len(), 2);
    match &out[0] {
        PullAction::Announce(Notice::Downloading { location }) => {
            assert_eq!(location, "releases/app.jar")
        },
        other => panic!("expected an announcement, got {}", name_of(other)),
    }
    match &out[1] {
        PullAction::MakeDirs(d) => assert_eq!(d, "./out/releases"),
        other => panic!("expected MakeDirs, got {}", name_of(other)),
    }

    // first file: request carries the percent-encoded location
    let out = m.step(PullEvent::DirMade(true));
    assert_eq!(out.len(), 1);
    match &out[0] {
        PullAction::FetchFile(req) => {
            assert_eq!(req.action, "pull-file");
            assert_eq!(req.url, "http://127.0.0.1:8080");
            assert_eq!(req.location.as_deref(), Some("releases%2Fapp.jar"));
        },
        other => panic!("expected the file request, got {}", name_of(other)),
    }

    let out = m.step(PullEvent::FileStarted(Some("11".to_string())));
    assert_eq!(out.len(), 2);
    assert!(matches!(out[0], PullAction::StartProgress(11)));
    match &out[1] {
        PullAction::OpenFile(p) => assert_eq!(p, "./out/releases/app.jar"),
        other => panic!("expected OpenFile, got {}", name_of(other)),
    }

    let out = m.step(PullEvent::FileOpened(true));
    assert!(matches!(out[..], [PullAction::NextChunk]));

    let out = m.step(PullEvent::Chunk(b"hello ".to_vec()));
    match &out[..] {
        [PullAction::Write(bytes)] => assert_eq!(bytes.as_slice(), &b"hello "[..]),
        _ => panic!("expected one write"),
    }
    let out = m.step(PullEvent::ChunkWritten(true));
    assert!(matches!(out[..], [PullAction::BumpProgress(6), PullAction::NextChunk]));

    let out = m.step(PullEvent::Chunk(b"jar".to_vec()));
    match &out[..] {
        [PullAction::Write(bytes)] => assert_eq!(bytes.as_slice(), &b"jar"[..]),
        _ => panic!("expected one write"),
    }
    let out = m.step(PullEvent::ChunkWritten(true));
    assert!(matches!(out[..], [PullAction::BumpProgress(3), PullAction::NextChunk]));

    let out = m.step(PullEvent::StreamEnd);
    assert!(matches!(out[..], [PullAction::FlushFile]));

    // second file begins only after the first is flushed
    let out = m.step(PullEvent::Flushed(true));
    assert_eq!(out.len(), 3);
    assert!(matches!(out[0], PullAction::EndProgress));
    match &out[1] {
        PullAction::Announce(Notice::Downloading { location }) => {
            assert_eq!(location, "cfg/app.yml")
        },
        other => panic!("expected an announcement, got {}", name_of(other)),
    }
    match &out[2] {
        PullAction::MakeDirs(d) => assert_eq!(d, "./out/cfg"),
        other => panic!("expected MakeDirs, got {}", name_of(other)),
    }

    let out = m.step(PullEvent::DirMade(true));
    match &out[..] {
        [PullAction::FetchFile(req)] => {
            assert_eq!(req.location.as_deref(), Some("cfg%2Fapp.yml"))
        },
        _ => panic!("expected the second file request"),
    }

    let out = m.step(PullEvent::FileStarted(None));
    assert!(matches!(out[0], PullAction::StartProgress(0)));
    match &out[1] {
        PullAction::OpenFile(p) => assert_eq!(p, "./out/cfg/app.yml"),
        other => panic!("expected OpenFile, got {}", name_of(other)),
    }
    let _ = m.step(PullEvent::FileOpened(true));
    let out = m.step(PullEvent::Chunk(b"key: value".to_vec()));
    match &out[..] {
        [PullAction::Write(bytes)] => assert_eq!(bytes.as_slice(), &b"key: value"[..]),
        _ => panic!("expected one write"),
    }
    let _ = m.step(PullEvent::ChunkWritten(true));
    let _ = m.step(PullEvent::StreamEnd);

    // the run ends cleanly
    let out = m.step(PullEvent::Flushed(true));
    assert!(matches!(out[..], [PullAction::EndProgress, PullAction::Finish]));

    // and a finished machine does nothing more
    let out = m.step(PullEvent::Chunk(b"late".to_vec()));
    assert!(out.is_empty());
}

#[test]
fn empty_manifest_finishes_without_requests() {
    let (mut m, _) = Machine::start(test_config());
    let out = m.step(PullEvent::ManifestBody("[]".to_string()));
    assert!(matches!(out[..], [PullAction::Finish]));
}

#[test]
fn malformed_manifest_aborts_the_run() {
    let (mut m, _) = Machine::start(test_config());
    let out = m.step(PullEvent::ManifestBody("not a manifest".to_string()));
    assert!(matches!(out[..], [PullAction::Abort]));
    let out = m.step(PullEvent::DirMade(true));
    assert!(out.is_empty());
}

#[test]
fn manifest_network_failure_aborts_the_run() {
    let (mut m, _) = Machine::start(test_config());
    let out = m.step(PullEvent::ManifestFailed);
    assert!(matches!(out[..], [PullAction::Abort]));
}

#[test]
fn a_failed_download_stops_all_later_downloads() {
    let (mut m, _) = Machine::start(test_config());
    let _ = m.step(PullEvent::ManifestBody("[\"a.bin\", \"b.bin\", \"c.bin\"]".to_string()));
    let _ = m.step(PullEvent::DirMade(true));
    let _ = m.step(PullEvent::FileStarted(Some("4".to_string())));
    let _ = m.step(PullEvent::FileOpened(true));
    // the stream dies mid-file
    let out = m.step(PullEvent::FileFailed);
    assert!(matches!(out[..], [PullAction::Abort]));
    // nothing for b.bin or c.bin is ever emitted
    for ev in [
        PullEvent::DirMade(true),
        PullEvent::FileStarted(None),
        PullEvent::Chunk(vec![1, 2, 3]),
        PullEvent::StreamEnd,
        PullEvent::Flushed(true),
    ] {
        assert!(m.step(ev).is_empty());
    }
}

#[test]
fn write_failure_aborts() {
    let (mut m, _) = Machine::start(test_config());
    let _ = m.step(PullEvent::ManifestBody("[\"a.bin\"]".to_string()));
    let _ = m.step(PullEvent::DirMade(true));
    let _ = m.step(PullEvent::FileStarted(None));
    let _ = m.step(PullEvent::FileOpened(true));
    let _ = m.step(PullEvent::Chunk(vec![0u8; 16]));
    let out = m.step(PullEvent::ChunkWritten(false));
    assert!(matches!(out[..], [PullAction::Abort]));
}

#[test]
fn dir_creation_failure_aborts() {
    let (mut m, _) = Machine::start(test_config());
    let _ = m.step(PullEvent::ManifestBody("[\"a/b.bin\"]".to_string()));
    let out = m.step(PullEvent::DirMade(false));
    assert!(matches!(out[..], [PullAction::Abort]));
}

#[test]
fn locations_are_percent_encoded_in_the_header() {
    let (mut m, _) = Machine::start(test_config());
    let _ = m.step(PullEvent::ManifestBody(
        "[\"dir with space/caf\u{e9}?.txt\"]".to_string(),
    ));
    let out = m.step(PullEvent::DirMade(true));
    match &out[..] {
        [PullAction::FetchFile(req)] => {
            assert_eq!(req.location.as_deref(), Some("dir%20with%20space%2Fcaf%C3%A9%3F.txt"));
        },
        _ => panic!("expected the file request"),
    }
}

#[test]
fn content_length_header_values() {
    assert_eq!(parse_content_length("11"), 11);
    assert_eq!(parse_content_length("+42"), 42);
    assert_eq!(parse_content_length("0"), 0);
    assert_eq!(parse_content_length(""), 0);
    assert_eq!(parse_content_length("nonsense"), 0);
    assert_eq!(parse_content_length("12 "), 0);
    assert_eq!(parse_content_length("-5"), 0);
    assert_eq!(parse_content_length("18446744073709551615"), 18446744073709551615);
    assert_eq!(parse_content_length("18446744073709551616"), 0);
}
