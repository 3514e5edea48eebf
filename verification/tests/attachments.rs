use deskd::app::attachments::{
    attachment_path, can_sanitize, classify_attachment, fallback_filename, over_cap,
    sanitize_filename, DownloadOutcome, FileMeta, MediaFile, MediaMessage,
};

#[test]
fn attachment_path_layout() {
    let p = attachment_path("/home/kira", -100123, 42, "report.pdf");
    assert_eq!(p, "/home/kira/.deskd/attachments/-100123/42/report.pdf");
}

#[test]
fn sanitize_strips_path_separators() {
    let out = sanitize_filename("../../etc/passwd");
    assert!(!out.contains('/'), "got {:?}", out);
    assert!(!out.starts_with('.'), "got {:?}", out);

    let out = sanitize_filename("..\\bad");
    assert!(!out.contains('\\'), "got {:?}", out);
}

#[test]
fn sanitize_handles_empty_input() {
    assert_eq!(sanitize_filename(""), "attachment.bin");
    assert_eq!(sanitize_filename("..."), "attachment.bin");
    assert_eq!(sanitize_filename("___"), "attachment.bin");
}

#[test]
fn sanitize_keeps_normal_filenames() {
    assert_eq!(sanitize_filename("report.pdf"), "report.pdf");
    assert_eq!(sanitize_filename("Slides 2026.pptx"), "Slides 2026.pptx");
}

#[test]
fn sanitize_truncates_long_names() {
    let name = format!("{}.pdf", "a".repeat(300));
    let out = sanitize_filename(&name);
    assert!(out.len() <= 200, "got {} chars", out.len());
    assert!(out.ends_with(".pdf"));
}

#[test]
fn fallback_filename_uses_mime_extension() {
    assert_eq!(fallback_filename("uid42", Some("application/pdf")), "uid42.pdf");
    assert_eq!(fallback_filename("uid42", Some("audio/ogg")), "uid42.ogg");
    assert_eq!(fallback_filename("uid42", None), "uid42.bin");
    assert_eq!(fallback_filename("uid42", Some("application/x-unknown")), "uid42.bin");
}

#[test]
fn over_cap_short_circuits_without_io() {
    let limit: u64 = 20 * 1024 * 1024;
    let too_big: u64 = limit + 1;
    let outcome = over_cap(too_big, limit);
    match outcome {
        Some(DownloadOutcome::OverCap { size, limit: l }) => {
            assert_eq!(size, too_big);
            assert_eq!(l, limit);
        }
        _ => panic!("expected OverCap"),
    }
    assert!(over_cap(limit, limit).is_none());
}

fn file(name: Option<&str>, mime: Option<&str>) -> MediaFile {
    MediaFile {
        file: FileMeta { id: "f".into(), unique_id: "u".into(), size: 7 },
        file_name: name.map(|s| s.to_string()),
        mime_type: mime.map(|s| s.to_string()),
    }
}

#[test]
fn attachments_are_classified() {
    let none = MediaMessage { document: None, voice: None, audio: None, video: None };
    assert!(classify_attachment(&none).is_none());
    let doc = MediaMessage { document: Some(file(Some("a.txt"), None)), voice: None, audio: None, video: None };
    let c = classify_attachment(&doc).unwrap();
    assert_eq!(c.kind_label(), "document");
    assert_eq!(c.suggested_filename(), "a.txt");
    assert_eq!(c.file_meta().size, 7);
    let video = MediaMessage { document: None, voice: None, audio: None, video: Some(file(None, Some("video/mp4"))) };
    let c = classify_attachment(&video).unwrap();
    assert_eq!(c.kind_label(), "video");
    assert_eq!(c.suggested_filename(), "u.mp4");
}

#[test]
fn names_with_long_extensions() {
    let name = format!("a.{}", "b".repeat(300));
    assert!(can_sanitize(&name));
    assert_eq!(sanitize_filename(&name), format!("a.{}", "b".repeat(198)));
    // An extension of 199 bytes leaves one byte to the stem.
    let name = format!("abc.{}", "x".repeat(198));
    assert!(can_sanitize(&name));
    assert_eq!(sanitize_filename(&name), format!("a.{}", "x".repeat(198)));
    let name = format!("abc.{}", "x".repeat(199));
    assert!(can_sanitize(&name));
    assert_eq!(sanitize_filename(&name), format!("abc.{}", "x".repeat(196)));
    let name = format!("{}.pdf", "s".repeat(400));
    assert_eq!(sanitize_filename(&name), format!("{}.pdf", "s".repeat(196)));
    assert!(can_sanitize("report.pdf"));
}
