use struxio::mime::{normalize_mime_type, MimeTypeError};

#[test]
fn normalizes_extensions_and_mime_types() {
    assert_eq!(normalize_mime_type("PDF"), Ok("application/pdf"));
    assert_eq!(normalize_mime_type(".jpg"), Ok("image/jpeg"));
    assert_eq!(normalize_mime_type(" image/webp "), Ok("image/webp"));
    assert_eq!(normalize_mime_type("image/jpg"), Ok("image/jpeg"));
    assert_eq!(normalize_mime_type("application/pdf; charset=binary"), Ok("application/pdf"));
}

#[test]
fn rejects_unsupported_types() {
    assert!(normalize_mime_type("application/octet-stream").is_err());
    assert!(normalize_mime_type("docx").is_err());
}

#[test]
fn unsupported_type_is_reported_trimmed() {
    let err = normalize_mime_type("  text/plain ").unwrap_err();
    assert_eq!(err, MimeTypeError::Unsupported("text/plain".to_string()));
    assert_eq!(
        err.message(),
        "unsupported file type `text/plain`; supported types are: application/pdf, image/png, image/jpeg, image/gif, image/webp"
    );
}

#[test]
fn other_supported_types() {
    assert_eq!(normalize_mime_type("PNG"), Ok("image/png"));
    assert_eq!(normalize_mime_type(".GIF"), Ok("image/gif"));
    assert_eq!(normalize_mime_type("jpeg"), Ok("image/jpeg"));
    assert_eq!(normalize_mime_type("webp;x=1"), Ok("image/webp"));
    assert!(normalize_mime_type("..pdf").is_err());
    assert!(normalize_mime_type("").is_err());
}
