use govdoc::schemas::DocType;
use govdoc::upload::{
    accept_general_upload, estimate_page_count, image_content_type, max_pdf_count_value,
    sanitize_filename, template_path, validate_general_file, Upload, GENERAL_DOC_MAX_PAGES,
};

#[test]
fn sanitize_filename_keeps_base_name_only() {
    assert_eq!(
        sanitize_filename("/etc/../หนังสือ ภายนอก.docx"),
        "หนังสือ_ภายนอก.docx"
    );
    assert_eq!(sanitize_filename("a\\b\\c.docx"), "c.docx");
    assert_eq!(sanitize_filename(""), "template.docx");
}

#[test]
fn sanitized_names_hold_no_separators_or_controls() {
    for name in ["a/b", "x\u{0}y", "a\tb", "..", "/", "\\", "ก ข", "\u{85}"] {
        let clean = sanitize_filename(name);
        assert!(!clean.contains('/') && !clean.contains('\\'));
        assert!(!clean.chars().any(|c| c.is_control() || c.is_whitespace()));
        assert!(!clean.is_empty());
    }
    assert_eq!(template_path("dir", 17, "a b.docx"), "dir/17_a_b.docx");
}

#[test]
fn estimates_general_pdf_page_count() {
    let mut pdf = b"%PDF-1.4 /Type /Pages".to_vec();
    for _ in 0..20 {
        pdf.extend_from_slice(b" /Type /Page ");
    }
    assert_eq!(estimate_page_count("manual.pdf", &pdf).unwrap(), 20);

    pdf.extend_from_slice(b" /Type /Page ");
    assert!(estimate_page_count("manual.pdf", &pdf).unwrap() > GENERAL_DOC_MAX_PAGES);
    assert_eq!(estimate_page_count("scan.png", b"image").unwrap(), 1);
    assert_eq!(
        estimate_page_count("compressed.pdf", b"%PDF /Type /Pages /Count 7").unwrap(),
        7
    );
}

#[test]
fn page_counts_of_odd_files() {
    assert_eq!(max_pdf_count_value("/Count 3 /Count\n12/Count x /Count"), 12);
    assert_eq!(max_pdf_count_value("/Count 99999999999999999999999"), 0);
    assert_eq!(estimate_page_count("A.PDF", b"").unwrap(), 1);
    assert_eq!(estimate_page_count("a.pdf", b"\xff/Count 2\xfe").unwrap(), 2);
}

#[test]
fn files_are_refused_with_a_reason() {
    let refusal = validate_general_file("a.docx", b"x").unwrap_err();
    assert_eq!(refusal.status, 400);
    assert_eq!(refusal.detail, "รองรับเฉพาะ PDF, PNG, JPG, JPEG");
    assert_eq!(
        validate_general_file("a.JPEG", b"").unwrap_err().detail,
        "uploaded file is empty"
    );
    assert!(validate_general_file("a.Jpg", b"x").is_ok());
    assert_eq!(
        accept_general_upload("a.pdf", b"/Count 21").unwrap_err().detail,
        "รองรับสูงสุด 20 หน้า (ไฟล์นี้ประมาณ 21 หน้า)"
    );
    assert_eq!(accept_general_upload("a.pdf", b"/Count 20").unwrap(), 20);
}

#[test]
fn images_have_a_media_type() {
    assert_eq!(image_content_type("x/page-001.PNG"), "image/png");
    assert_eq!(image_content_type("x/page-001.jpg"), "image/jpeg");
}

#[test]
fn forms_are_read() {
    let mut form = Upload::new();
    assert_eq!(form.file().unwrap_err().detail, "missing file field");
    assert_eq!(
        form.doc_type().unwrap_err().detail,
        "missing form field: doc_type"
    );
    form.put_field("doc_type".into(), "x".into());
    assert_eq!(form.doc_type().unwrap_err().detail, "invalid doc_type: x");
    form.put_field("doc_type".into(), "คำสั่ง".into());
    assert_eq!(form.doc_type().unwrap(), DocType::Order);
    assert!(form.wants_structure());
    form.put_field("structure".into(), "false".into());
    assert!(!form.wants_structure());
    assert!(!form.is_default());
    form.put_field("is_default".into(), "on".into());
    assert!(form.is_default());
    form.put_field("agency".into(), "".into());
    assert_eq!(form.field("agency"), None);
    assert!(Upload::is_file_part("file"));
    form.put_file(None, vec![1, 2]);
    let (name, bytes) = form.file().unwrap();
    assert_eq!((name, bytes.as_slice()), ("upload", [1u8, 2].as_slice()));
    form.put_file(Some("a.pdf".into()), vec![]);
    assert_eq!(form.file().unwrap().0, "a.pdf");
}
