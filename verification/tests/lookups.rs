use minimime::{Db, Info, lookup_by_content_type, lookup_by_extension, lookup_by_filename};

fn lines(rows: &[&str]) -> Vec<String> {
    rows.iter().map(|r| r.to_string()).collect()
}

fn sample_db() -> Db {
    let ext_lines = lines(&[
        "123 application/vnd.lotus-1-2-3 base64",
        "csv text/csv 8bit",
        "gtm application/vnd.groove-tool-message base64",
        "mda application/x-msaccess base64",
        "pdf application/pdf base64",
        "txt text/plain quoted-printable",
        "z application/x-compressed base64",
        "zip application/zip base64",
        "zmm application/vnd.HandHeld-Entertainment+xml base64",
    ]);
    let content_type_lines = lines(&[
        "csv text/csv 8bit",
        "pdf application/pdf base64",
        "txt text/plain quoted-printable",
        "z application/x-compressed base64",
        "zip application/zip base64",
    ]);
    Db::new(&ext_lines, &content_type_lines)
}

#[test]
fn test_extension() {
    let db = sample_db();
    if let Some(info) = lookup_by_extension(&db, "zip") {
        assert_eq!(info.content_type, "application/zip");
    }
}

#[test]
fn test_mixed_case() {
    let db = sample_db();
    if let Some(info) = lookup_by_filename(&db, "a.GTM") {
        assert_eq!(info.content_type, "application/vnd.groove-tool-message");
    }
    if let Some(info) = lookup_by_extension(&db, "ZiP") {
        assert_eq!(info.content_type, "application/zip");
    }
}

#[test]
fn test_content_type_lookups() {
    let db = sample_db();
    if let Some(info) = lookup_by_filename(&db, "a.123") {
        assert_eq!(info.content_type, "application/vnd.lotus-1-2-3");
    }
    if let Some(info) = lookup_by_filename(&db, "a.Z") {
        assert_eq!(info.content_type, "application/x-compressed");
    }
    if let Some(info) = lookup_by_filename(&db, "a.gtm") {
        assert_eq!(info.content_type, "application/vnd.groove-tool-message");
    }
    if let Some(info) = lookup_by_filename(&db, "a.zmm") {
        assert_eq!(info.content_type, "application/vnd.HandHeld-Entertainment+xml");
    }
    if let Some(info) = lookup_by_filename(&db, "x.csv") {
        assert_eq!(info.content_type, "text/csv");
    }
    if let Some(info) = lookup_by_filename(&db, "x.mda") {
        assert_eq!(info.content_type, "application/x-msaccess");
    }

    assert!(lookup_by_filename(&db, "a.frog").is_none());
}

#[test]
fn test_binary() {
    let db = sample_db();
    if let Some(info) = lookup_by_filename(&db, "a.z") {
        assert!(info.is_binary());
    }
    if let Some(info) = lookup_by_filename(&db, "a.Z") {
        assert!(info.is_binary());
    }
    if let Some(info) = lookup_by_filename(&db, "a.txt") {
        assert!(!info.is_binary());
    }
    assert!(lookup_by_filename(&db, "a.frog").is_none());
}

#[test]
fn test_binary_content_type() {
    let db = sample_db();
    if let Some(info) = lookup_by_content_type(&db, "application/x-compressed") {
        assert!(info.is_binary());
    }
    assert!(lookup_by_content_type(&db, "something-fake").is_none());
    if let Some(info) = lookup_by_content_type(&db, "text/plain") {
        assert!(!info.is_binary());
    }
}

#[test]
fn test_prioritize_extensions_correctly() {
    let db = sample_db();
    if let Some(info) = lookup_by_content_type(&db, "text/plain") {
        assert_eq!(info.extension, "txt");
    }
}

#[test]
fn test_lookup_by_filename() {
    let db = sample_db();
    if let Some(info) = lookup_by_filename(&db, "document.pdf") {
        assert_eq!(info.content_type, "application/pdf");
    }
}

#[test]
fn test_lookup_by_extension() {
    let db = sample_db();
    if let Some(info) = lookup_by_extension(&db, "pdf") {
        assert_eq!(info.content_type, "application/pdf");
    }
}

#[test]
fn test_round_trip() {
    let row = "pdf application/pdf base64";
    let inserted = Info::new(row).unwrap();
    let db = Db::new(&lines(&[row]), &lines(&[]));
    assert_eq!(lookup_by_extension(&db, "pdf"), Some(inserted.clone()));
    assert_eq!(lookup_by_filename(&db, "x.pdf"), Some(inserted));
}

#[test]
fn test_case_fallback_to_lowercase() {
    let db = Db::new(&lines(&["zip application/zip base64"]), &lines(&[]));
    let exact = lookup_by_extension(&db, "zip").unwrap();
    let folded = lookup_by_extension(&db, "ZIP").unwrap();
    assert_eq!(exact, folded);
    assert_eq!(folded.content_type, "application/zip");
}

#[test]
fn test_case_fallback_prefers_exact_match() {
    let db = Db::new(
        &lines(&["ZIP application/x-upper base64", "zip application/zip base64"]),
        &lines(&[]),
    );
    let upper = lookup_by_extension(&db, "ZIP").unwrap();
    assert_eq!(upper.content_type, "application/x-upper");
    let lower = lookup_by_extension(&db, "zip").unwrap();
    assert_eq!(lower.content_type, "application/zip");
    let mixed = lookup_by_extension(&db, "Zip").unwrap();
    assert_eq!(mixed.content_type, "application/zip");
}

#[test]
fn test_unknown_extension_absent() {
    let db = sample_db();
    assert!(lookup_by_extension(&db, "frog").is_none());
    assert!(lookup_by_filename(&db, "a.frog").is_none());
}

#[test]
fn test_filename_without_extension_absent() {
    let db = sample_db();
    assert!(lookup_by_filename(&db, "noext").is_none());
    assert!(lookup_by_filename(&db, "trailing.").is_none());
    assert!(lookup_by_filename(&db, "dir.pdf/noext").is_none());
    assert!(lookup_by_filename(&db, "").is_none());
}

#[test]
fn test_filename_with_path() {
    let db = sample_db();
    let info = lookup_by_filename(&db, "some/dir/report.PDF").unwrap();
    assert_eq!(info.content_type, "application/pdf");
}

#[test]
fn test_duplicate_key_last_wins() {
    let db = Db::new(
        &lines(&["pdf application/pdf base64", "pdf application/x-override 8bit"]),
        &lines(&["old text/plain 7bit", "new text/plain 8bit"]),
    );
    let by_ext = lookup_by_extension(&db, "pdf").unwrap();
    assert_eq!(by_ext.content_type, "application/x-override");
    let by_type = lookup_by_content_type(&db, "text/plain").unwrap();
    assert_eq!(by_type.extension, "new");
}

#[test]
fn test_malformed_lines_skipped() {
    let db = Db::new(
        &lines(&["", "  ", "pdf application/pdf", "zip application/zip base64"]),
        &lines(&[]),
    );
    assert!(lookup_by_extension(&db, "pdf").is_none());
    let info = lookup_by_extension(&db, "zip").unwrap();
    assert_eq!(info.content_type, "application/zip");
}

#[test]
fn test_empty_database() {
    let db = Db::new(&lines(&[]), &lines(&[]));
    assert!(lookup_by_extension(&db, "pdf").is_none());
    assert!(lookup_by_content_type(&db, "application/pdf").is_none());
    assert!(lookup_by_filename(&db, "a.pdf").is_none());
}
