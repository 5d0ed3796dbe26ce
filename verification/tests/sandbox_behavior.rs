//! Behavioral tests for the resolution and caching backend.
use typst_sandbox::ids::FileId;
use typst_sandbox::ids::PackageId;
use typst_sandbox::sandbox::FileFailure;
use typst_sandbox::sandbox::PackageFailure;
use typst_sandbox::sandbox::Sandbox;
use typst_sandbox::sandbox::TextFailure;

fn pkg(namespace: &str, name: &str, version: &str) -> PackageId {
    PackageId {
        namespace: namespace.as_bytes().to_vec(),
        name: name.as_bytes().to_vec(),
        version: version.as_bytes().to_vec(),
    }
}

fn pkg_file(p: &PackageId, path: &str) -> FileId {
    FileId {
        package: Some(PackageId {
            namespace: p.namespace.clone(),
            name: p.name.clone(),
            version: p.version.clone(),
        }),
        path: path.as_bytes().to_vec(),
    }
}

fn root_file(path: &str) -> FileId {
    FileId { package: None, path: path.as_bytes().to_vec() }
}

/// A gzip-compressed tar archive holding the given (path, contents) entries.
fn targz(entries: &[(&str, &[u8])]) -> Vec<u8> {
    let mut builder = tar::Builder::new(Vec::new());
    for (path, data) in entries {
        let mut header = tar::Header::new_gnu();
        header.set_size(data.len() as u64);
        header.set_mode(0o644);
        header.set_cksum();
        builder.append_data(&mut header, path, *data).unwrap();
    }
    let tar_bytes = builder.into_inner().unwrap();
    let mut enc = flate2::write::GzEncoder::new(Vec::new(), flate2::Compression::default());
    std::io::Write::write_all(&mut enc, &tar_bytes).unwrap();
    enc.finish().unwrap()
}

#[test]
fn unknown_root_file_is_not_found() {
    let mut sandbox = Sandbox::new();
    let id = root_file("nope.typ");
    assert!(matches!(sandbox.file(&id), Err(FileFailure::NotFound)));
    assert!(matches!(sandbox.file_text(&id), Err(TextFailure::NotFound)));
}

#[test]
fn unfetched_package_reports_registry_url() {
    let mut sandbox = Sandbox::new();
    let p = pkg("preview", "example", "1.0.0");
    let id = pkg_file(&p, "lib.typ");
    match sandbox.file(&id) {
        Err(FileFailure::PackageNotFetched(url)) => {
            assert_eq!(
                url,
                b"https://packages.typst.org/preview/example-1.0.0.tar.gz".to_vec()
            );
        }
        other => panic!("expected PackageNotFetched, got {:?}", other.is_ok()),
    }
    assert!(sandbox.needs_fetch(&p));
    match sandbox.file_text(&id) {
        Err(TextFailure::PackageNotFetched(url)) => {
            assert_eq!(
                url,
                b"https://packages.typst.org/preview/example-1.0.0.tar.gz".to_vec()
            );
        }
        other => panic!("expected PackageNotFetched, got {:?}", other.is_ok()),
    }
}

#[test]
fn install_populates_every_entry() {
    let mut sandbox = Sandbox::new();
    let p = pkg("preview", "example", "1.0.0");
    let archive = targz(&[
        ("typst.toml", b"[package]\n".as_slice()),
        ("lib.typ", b"#let x = 1\n".as_slice()),
        ("assets/raw.bin", &[0u8, 159, 146, 150]),
    ]);
    assert!(sandbox.needs_fetch(&p));
    assert!(sandbox.install_archive(&p, &archive).is_ok());
    assert!(!sandbox.needs_fetch(&p));
    assert_eq!(
        sandbox.file(&pkg_file(&p, "typst.toml")).unwrap(),
        b"[package]\n".to_vec()
    );
    assert_eq!(
        sandbox.file(&pkg_file(&p, "lib.typ")).unwrap(),
        b"#let x = 1\n".to_vec()
    );
    assert_eq!(
        sandbox.file(&pkg_file(&p, "assets/raw.bin")).unwrap(),
        vec![0u8, 159, 146, 150]
    );
    assert!(matches!(
        sandbox.file(&pkg_file(&p, "missing.typ")),
        Err(FileFailure::NotFound)
    ));
}

#[test]
fn install_empty_archive_succeeds_with_no_entries() {
    let mut sandbox = Sandbox::new();
    let p = pkg("preview", "empty", "0.1.0");
    let archive = targz(&[]);
    assert!(sandbox.install_archive(&p, &archive).is_ok());
    assert!(sandbox.needs_fetch(&p));
    assert!(matches!(
        sandbox.file(&pkg_file(&p, "typst.toml")),
        Err(FileFailure::PackageNotFetched(_))
    ));
}

#[test]
fn install_rejects_malformed_archive() {
    let mut sandbox = Sandbox::new();
    let p = pkg("preview", "bad", "0.1.0");
    let garbage = vec![1u8, 2, 3, 4, 5];
    assert!(matches!(
        sandbox.install_archive(&p, &garbage),
        Err(PackageFailure::MalformedArchive)
    ));
    let mut truncated = targz(&[("typst.toml", b"x".as_slice())]);
    truncated.truncate(truncated.len() / 2);
    assert!(matches!(
        sandbox.install_archive(&p, &truncated),
        Err(PackageFailure::MalformedArchive)
    ));
    assert!(sandbox.needs_fetch(&p));
}

#[test]
fn resolved_bytes_stay_identical_across_reinstall() {
    let mut sandbox = Sandbox::new();
    let p = pkg("preview", "example", "1.0.0");
    let first = targz(&[
        ("typst.toml", b"[package]\n".as_slice()),
        ("lib.typ", b"old contents".as_slice()),
    ]);
    sandbox.install_archive(&p, &first).unwrap();
    let id = pkg_file(&p, "lib.typ");
    let bytes_before = sandbox.file(&id).unwrap();
    let second = targz(&[
        ("typst.toml", b"[package]\n".as_slice()),
        ("lib.typ", b"new contents".as_slice()),
    ]);
    sandbox.install_archive(&p, &second).unwrap();
    let bytes_after = sandbox.file(&id).unwrap();
    assert_eq!(bytes_before, bytes_after);
    assert_eq!(bytes_after, b"old contents".to_vec());
}

#[test]
fn text_resolution_strips_byte_order_mark() {
    let mut sandbox = Sandbox::new();
    let p = pkg("preview", "example", "1.0.0");
    let mut with_bom = vec![0xefu8, 0xbb, 0xbf];
    with_bom.extend_from_slice("hello".as_bytes());
    let archive = targz(&[
        ("typst.toml", b"[package]\n".as_slice()),
        ("main.typ", with_bom.as_slice()),
    ]);
    sandbox.install_archive(&p, &archive).unwrap();
    let id = pkg_file(&p, "main.typ");
    assert_eq!(sandbox.file_text(&id).unwrap(), "hello".to_string());
    // The memoized text answers later calls identically.
    assert_eq!(sandbox.file_text(&id).unwrap(), "hello".to_string());
    // The raw bytes keep the mark.
    assert_eq!(sandbox.file(&id).unwrap(), with_bom);
}

#[test]
fn invalid_encoding_fails_every_time() {
    let mut sandbox = Sandbox::new();
    let p = pkg("preview", "example", "1.0.0");
    let archive = targz(&[
        ("typst.toml", b"[package]\n".as_slice()),
        ("bad.typ", &[0xffu8, 0xfe, 0x00]),
    ]);
    sandbox.install_archive(&p, &archive).unwrap();
    let id = pkg_file(&p, "bad.typ");
    assert!(matches!(
        sandbox.file_text(&id),
        Err(TextFailure::InvalidEncoding)
    ));
    assert!(matches!(
        sandbox.file_text(&id),
        Err(TextFailure::InvalidEncoding)
    ));
    // The raw bytes are still served.
    assert_eq!(sandbox.file(&id).unwrap(), vec![0xffu8, 0xfe, 0x00]);
}

#[test]
fn non_ascii_paths_round_trip() {
    let mut sandbox = Sandbox::new();
    let p = pkg("preview", "example", "1.0.0");
    let archive = targz(&[
        ("typst.toml", b"[package]\n".as_slice()),
        ("unter/straße.typ", b"inhalt".as_slice()),
    ]);
    sandbox.install_archive(&p, &archive).unwrap();
    assert_eq!(
        sandbox.file(&pkg_file(&p, "unter/straße.typ")).unwrap(),
        b"inhalt".to_vec()
    );
    assert!(matches!(
        sandbox.file(&pkg_file(&p, "unter/strasse.typ")),
        Err(FileFailure::NotFound)
    ));
}

#[test]
fn second_compilation_reuses_fetched_package() {
    let mut sandbox = Sandbox::new();
    let p = pkg("preview", "example", "1.0.0");
    let id = pkg_file(&p, "lib.typ");

    // First compilation: the resolution is turned back for a fetch, the
    // caller installs the archive, and resolution then succeeds.
    let first = sandbox.with_source("#import \"@preview/example:1.0.0\"".to_string(), 0);
    assert!(matches!(
        first.file(&mut sandbox, &id),
        Err(FileFailure::PackageNotFetched(_))
    ));
    let archive = targz(&[
        ("typst.toml", b"[package]\n".as_slice()),
        ("lib.typ", b"#let x = 1\n".as_slice()),
    ]);
    sandbox.install_archive(&p, &archive).unwrap();
    assert_eq!(first.file(&mut sandbox, &id).unwrap(), b"#let x = 1\n".to_vec());

    // Second compilation sharing the sandbox: no fetch is needed, the
    // cached storage answers at once.
    let second = sandbox.with_source("#import \"@preview/example:1.0.0\"".to_string(), 7);
    assert!(!sandbox.needs_fetch(&p));
    assert_eq!(second.file(&mut sandbox, &id).unwrap(), b"#let x = 1\n".to_vec());
    assert_eq!(
        second.source(&mut sandbox, &id).unwrap(),
        "#let x = 1\n".to_string()
    );
}
