use govdoc::docx::{
    build_document_xml, docx_paragraph, docx_table_or_paragraph, xml_escape, CONTENT_TYPES,
    RELATIONSHIPS,
};
use govdoc::general_store::{GeneralDocumentBlock, GeneralDocumentPage};
use govdoc::json::JsonNumber;
use govdoc::overlay::{
    build_drawing_args, build_image_background_pdf, Annotation, Overlay, Sheet,
};
use govdoc::pdf::{
    build_file, build_simple_pdf, page_size, parse_bbox, pdf_escape, pdf_page_content, BBox,
    PdfPage, PlacedBlock, Placement,
};
use govdoc::render::{
    rendered, render_with_sidecar, staging_name, unique_export_name, work_dir_name, RenderRun,
    GENERAL_STEM, RENDERED_STEM,
};
use govdoc::json::Json;
use govdoc::schemas::{DocType, RenderRequest};

fn page() -> GeneralDocumentPage {
    GeneralDocumentPage {
        id: 1,
        document_id: 1,
        page_number: 1,
        status: "succeeded".to_string(),
        ocr_text: Some("Heading\nBody text".to_string()),
        edited_text: None,
        error: None,
        page_image_path: None,
        ocr_raw_json: None,
        page_width: None,
        page_height: None,
        layout_warning: None,
        updated_at: "now".to_string(),
    }
}

fn block() -> GeneralDocumentBlock {
    GeneralDocumentBlock {
        id: 1,
        document_id: 1,
        page_number: 1,
        block_index: 0,
        block_type: "heading".to_string(),
        text: Some("Heading".to_string()),
        bbox_json: Some("[50,50,200,80]".to_string()),
        style_json: None,
        image_path: None,
        embedding: None,
        created_at: "now".to_string(),
        updated_at: "now".to_string(),
    }
}

fn lines_at(x: &str, first: f32) -> Placement {
    Placement {
        x: x.to_string(),
        y: [0, 1, 2, 3, 4, 5].map(|i| format!("{:.1}", first - 12.0 * i as f32)),
    }
}

fn placed(text: Option<&str>, placement: Option<Placement>) -> PlacedBlock {
    PlacedBlock {
        text: text.map(str::to_string),
        placement,
    }
}

fn integer(n: &JsonNumber) -> u64 {
    match n {
        JsonNumber::Unsigned(n) => *n,
        other => panic!("{other:?}"),
    }
}

#[test]
fn general_export_builders_return_files() {
    let xml = build_document_xml("manual.pdf", &vec![page()], &vec![block()]);
    assert!(xml.starts_with("<?xml"));
    assert!(xml.contains("manual.pdf"));
    assert!(xml.contains(&docx_paragraph("Heading", true)));
    assert!(CONTENT_TYPES.starts_with("<?xml"));
    assert!(RELATIONSHIPS.contains("word/document.xml"));
    let pdf = build_simple_pdf(
        "manual.pdf",
        &vec![PdfPage {
            page: page(),
            blocks: vec![placed(Some("Heading"), Some(lines_at("50.0", 792.0)))],
        }],
    );
    assert!(pdf.starts_with(b"%PDF"));
    assert!(pdf.ends_with(b"%%EOF\n"));
}

#[test]
fn every_object_of_a_pdf_is_where_the_table_says() {
    let pages: Vec<PdfPage> = (0..3)
        .map(|_| PdfPage {
            page: page(),
            blocks: Vec::new(),
        })
        .collect();
    let pdf = String::from_utf8(build_simple_pdf("ก.pdf", &pages)).unwrap();
    let start: usize = pdf
        .split("startxref\n")
        .nth(1)
        .unwrap()
        .lines()
        .next()
        .unwrap()
        .parse()
        .unwrap();
    assert!(pdf[start..].starts_with("xref\n0 10\n"));
    let table: Vec<&str> = pdf[start..].lines().skip(3).take(9).collect();
    for (i, entry) in table.iter().enumerate() {
        let offset: usize = entry[..10].parse().unwrap();
        assert!(pdf[offset..].starts_with(&format!("{} 0 obj", i + 1)));
    }
    assert!(build_file(&Vec::new()).starts_with("%PDF-1.4"));
}

#[test]
fn text_is_escaped_for_each_format() {
    assert_eq!(pdf_escape("(a\\b)ก"), "\\(a\\\\b\\)");
    assert_eq!(xml_escape("<a & \"b\">'"), "&lt;a &amp; \"b\"&gt;'");
}

#[test]
fn blocks_are_placed_on_the_page() {
    let content = pdf_page_content(
        "f.pdf",
        &page(),
        &vec![
            placed(Some("one\ntwo"), Some(lines_at("50.0", 700.0))),
            placed(None, Some(lines_at("1.0", 1.0))),
        ],
    );
    assert!(content.contains("50.0 700.0 Td (one) Tj"));
    assert!(content.contains("50.0 688.0 Td (two) Tj"));
    assert!(!content.contains("Body text"));
    let plain = pdf_page_content("f.pdf", &page(), &vec![placed(Some("x"), None)]);
    assert!(plain.contains("50 760 Td (Heading) Tj"));
    assert!(plain.contains("50 744 Td (Body text) Tj"));
}

#[test]
fn boxes_are_read_in_three_forms() {
    match parse_bbox(Some("[1,2,3,4,5]")) {
        Some(BBox::Edges(a, b, c, d)) => {
            assert_eq!([&a, &b, &c, &d].map(integer), [1, 2, 3, 4])
        }
        other => panic!("{other:?}"),
    }
    assert!(matches!(
        parse_bbox(Some(r#"{"x":1,"y":2,"width":3,"height":4}"#)),
        Some(BBox::Size(..))
    ));
    assert!(matches!(
        parse_bbox(Some(r#"{"x1":1,"y1":2,"x2":3,"y2":4}"#)),
        Some(BBox::Corners(..))
    ));
    assert!(parse_bbox(Some("[1,2]")).is_none());
    assert!(parse_bbox(Some("?")).is_none());
    assert!(parse_bbox(None).is_none());
    let mut sized = page();
    assert_eq!(page_size(&sized), (595, 842));
    sized.page_width = Some(10);
    sized.page_height = Some(20);
    assert_eq!(page_size(&sized), (10, 20));
}

fn sheets(images: &[Option<&str>]) -> Vec<Sheet> {
    images
        .iter()
        .enumerate()
        .map(|(i, image)| Sheet {
            page_number: i as i64 + 1,
            image: image.map(str::to_string),
            annotations: Vec::new(),
        })
        .collect()
}

#[test]
fn blocks_are_drawn_where_they_stand() {
    let args = build_drawing_args(
        "p.png",
        &vec![
            Annotation {
                text: Some(format!(" {}\nb", "a".repeat(200))),
                at: Some("+1+2".to_string()),
            },
            Annotation {
                text: None,
                at: Some("+3+4".to_string()),
            },
            Annotation {
                text: Some("c".to_string()),
                at: None,
            },
        ],
        "out.png",
    );
    let drawn = "a".repeat(180);
    assert_eq!(
        args,
        [
            "p.png", "-resize", "595x842!", "-font", "Helvetica", "-pointsize", "10", "-fill",
            "black", "-annotate", "+1+2", drawn.as_str(), "out.png",
        ]
    );
}

#[test]
fn pages_are_drawn_over_their_images() {
    let begin = |tool, images: &[Option<&str>]| {
        build_image_background_pdf(tool, "work/", sheets(images))
    };
    assert!(matches!(begin(false, &[Some("a")]), Overlay::Unavailable));
    assert!(matches!(begin(true, &[Some("a"), None]), Overlay::Unavailable));
    let first = match begin(true, &[Some("a.png"), Some("b.png")]) {
        Overlay::Draw(pending) => pending,
        other => panic!("{other:?}"),
    };
    assert_eq!(first.args()[0], "a.png");
    assert_eq!(first.args().last().unwrap(), "work/page-001.png");
    let second = match first.drawn(true) {
        Overlay::Draw(pending) => pending,
        other => panic!("{other:?}"),
    };
    assert_eq!(second.args()[0], "b.png");
    match second.drawn(true) {
        Overlay::Join(pending) => {
            assert_eq!(
                pending.args(),
                ["work/page-001.png", "work/page-002.png", "work/out.pdf"]
            );
            assert_eq!(pending.output(), "work/out.pdf");
        }
        other => panic!("{other:?}"),
    }
    match begin(true, &[Some("a.png"), Some("b.png")]) {
        Overlay::Draw(pending) => {
            assert!(matches!(pending.drawn(false), Overlay::Unavailable))
        }
        other => panic!("{other:?}"),
    }
    assert!(matches!(begin(true, &[]), Overlay::Join(_)));
}

#[test]
fn tables_become_rows_and_cells() {
    let table = docx_table_or_paragraph("| a | b |\n|---|---|\n| 1 | 2 |");
    assert!(table.starts_with("<w:tbl><w:tr>"));
    assert_eq!(table.matches("<w:tr>").count(), 2);
    assert_eq!(table.matches("<w:tc>").count(), 4);
    assert_eq!(docx_table_or_paragraph("x\ny"), docx_paragraph("x\ny", false));
    assert_eq!(docx_table_or_paragraph("|-|"), docx_paragraph("|-|", false));
}

#[test]
fn render_requires_configured_sidecar() {
    let req = RenderRequest {
        doc_type: DocType::External,
        doc_data: Json::parse(
            r#"{
                "doc_type": "ภายนอก",
                "number": "ศธ 0000/0001",
                "agency": "หน่วยงานตัวอย่าง",
                "date": "1 มกราคม 2569",
                "subject": "ขอเชิญร่วมงาน",
                "recipient": "ผู้ปกครอง",
                "salutation": "เรียน",
                "reference": [],
                "enclosure": [],
                "body": ["ย่อหน้าทดสอบ"],
                "closing": "ขอแสดงความนับถือ",
                "signer_name": "นายสมชาย",
                "signer_position": "ผู้อำนวยการ"
            }"#,
        )
        .unwrap(),
        template_id: None,
    };
    let refused = render_with_sidecar(None, &req, None, None).unwrap_err();
    assert_eq!(refused.status, 501);
    let call = render_with_sidecar(Some("cmd"), &req, Some("t.docx"), None).unwrap();
    assert_eq!(call.command, "cmd");
    assert_eq!(
        call.input,
        concat_parts(&[
            r#"{"doc_data":{"agency":"หน่วยงานตัวอย่าง","body":["ย่อหน้าทดสอบ"],"#,
            r#""closing":"ขอแสดงความนับถือ","date":"1 มกราคม 2569","doc_type":"ภายนอก","#,
            r#""enclosure":[],"number":"ศธ 0000/0001","recipient":"ผู้ปกครอง","reference":[],"#,
            r#""salutation":"เรียน","signer_name":"นายสมชาย","signer_position":"ผู้อำนวยการ","#,
            r#""subject":"ขอเชิญร่วมงาน"},"doc_type":"ภายนอก","python_source":null,"#,
            r#""template_path":"t.docx"}"#,
        ])
    );
}

fn concat_parts(parts: &[&str]) -> String {
    parts.concat()
}

#[test]
fn renderer_runs_are_judged() {
    assert_eq!(rendered(RenderRun::Done(vec![1, 2])).unwrap(), vec![1, 2]);
    let detail = |run: RenderRun| {
        let refused = rendered(run).unwrap_err();
        (refused.status, refused.detail)
    };
    assert_eq!(
        detail(RenderRun::NotStarted("e".into())),
        (500, "Failed to start renderer sidecar: e".to_string())
    );
    assert_eq!(
        detail(RenderRun::NoInput),
        (500, "Renderer sidecar stdin is unavailable".to_string())
    );
    assert_eq!(
        detail(RenderRun::NotWritten("e".into())),
        (500, "Failed to write renderer input: e".to_string())
    );
    assert_eq!(
        detail(RenderRun::NotRead("e".into())),
        (500, "Failed to read renderer output: e".to_string())
    );
    assert_eq!(
        detail(RenderRun::Failed(b"".to_vec())),
        (502, "Renderer sidecar failed".to_string())
    );
    assert_eq!(
        detail(RenderRun::Failed(b"bad\xff \n".to_vec())),
        (502, "bad\u{fffd}".to_string())
    );
}

#[test]
fn exports_never_share_a_name() {
    assert_eq!(unique_export_name(RENDERED_STEM, 5, 0, "docx"), "govdoc-5.docx");
    assert_eq!(
        unique_export_name(GENERAL_STEM, 5, 2, "pdf"),
        "general-document-5-2.pdf"
    );
    assert_eq!(staging_name(7), "upload-7");
    assert!(work_dir_name("x", 7).contains('7'));
}
