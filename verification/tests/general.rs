use govdoc::blocks::extract_general_blocks;
use govdoc::general::{
    current_status, delete_general_document, ensure_general_document, general_document,
    general_document_blocks, general_document_dir, general_export_payload, general_page_image,
    get_general_document, get_general_document_page, keep_page_assets, list_general_page_blocks,
    needs_page_images, repaired_page_count, DocumentDir, GeneralBlockResponse,
};
use govdoc::general_store::NewGeneralDocument;
use govdoc::json::Json;
use govdoc::pages::{
    first_new_file, fitz_args, is_png_extension, page_image_name, pdftoppm_args,
    prepare_general_page_images, quicklook_args, rendered_page_name, PageImageAsset, PageImages,
    ToolRun, NOT_PRODUCED,
};
use govdoc::providers::OcrPageOutput;
use govdoc::reading::{ocr_general_document, page_payload, OcrStep, Reading, PAUSE_SECONDS};
use govdoc::revising::{edit_general_document, GeneralEdit, GeneralEditRequest, PageEditStep};
use govdoc::search::Hit;
use govdoc::sqlite::SqliteStore;

fn json(text: &str) -> Json {
    Json::parse(text).unwrap()
}

fn stored(pages: i64) -> (SqliteStore, i64) {
    let mut store = SqliteStore::open_memory().unwrap();
    let id = store
        .create_general_document(NewGeneralDocument {
            filename: "manual.pdf",
            file_path: "1/source/manual.pdf",
            page_count: pages,
        })
        .unwrap();
    (store, id)
}

fn reading(id: i64, page: i64, text: &str) -> Reading {
    let raw_json = json("{}");
    let blocks = extract_general_blocks(id, page, text, &raw_json);
    Reading::Read {
        output: OcrPageOutput {
            text: text.to_string(),
            raw_json,
        },
        blocks,
    }
}

fn read_all(store: &mut SqliteStore, id: i64, texts: &[Option<&str>]) -> String {
    let mut step = ocr_general_document(store, id, texts.len() as i64).unwrap();
    loop {
        step = match step {
            OcrStep::Read(turn) => {
                let page = turn.page;
                let kept = match texts[page as usize - 1] {
                    Some(text) => reading(id, page, text),
                    None => Reading::Failed("unreadable".to_string()),
                };
                turn.finished(store, kept).unwrap()
            }
            OcrStep::Pause(pause) => pause.over(store).unwrap(),
            OcrStep::Finished(status) => return status,
        };
    }
}

fn edit(instruction: &str, page: Option<i64>, block: Option<i64>, all: Option<bool>) -> GeneralEditRequest {
    GeneralEditRequest {
        instruction: instruction.to_string(),
        page,
        block_index: block,
        all_pages: all,
    }
}

#[test]
fn pages_are_read_one_after_the_other() {
    let (mut store, id) = stored(2);
    match ocr_general_document(&mut store, id, 2).unwrap() {
        OcrStep::Read(turn) => assert_eq!((turn.page, turn.page_count), (1, 2)),
        other => panic!("{other:?}"),
    }
    let page = get_general_document_page(&mut store, id, 1).unwrap();
    assert_eq!(page.status, "running");
    assert_eq!(
        read_all(&mut store, id, &[Some("หนึ่ง\n\nสอง"), Some("สาม")]),
        "succeeded"
    );
    let blocks = general_document_blocks(&mut store, id, None).unwrap();
    assert_eq!(blocks.len(), 3);
    assert_eq!(list_general_page_blocks(&mut store, id, 1).unwrap().len(), 2);
    assert_eq!(PAUSE_SECONDS, 3);
    assert_eq!(current_status(&mut store, id).unwrap(), "succeeded");
    assert_eq!(current_status(&mut store, 99).unwrap(), "unknown");
}

#[test]
fn a_page_that_cannot_be_read_is_marked() {
    let (mut store, id) = stored(2);
    assert_eq!(read_all(&mut store, id, &[None, Some("x")]), "partial");
    let page = get_general_document_page(&mut store, id, 1).unwrap();
    assert_eq!(page.status, "failed");
    assert_eq!(page.error.as_deref(), Some("unreadable"));
}

#[test]
fn page_images_are_sent_where_there_are_any() {
    let sent = page_payload(Some((vec![1], None)), b"doc", "a.pdf", 4);
    assert_eq!((sent.bytes, sent.filename.as_str(), sent.page), (vec![1], "page.png", None));
    let sent = page_payload(Some((vec![1], Some("p.png".into()))), b"doc", "a.pdf", 4);
    assert_eq!(sent.filename, "p.png");
    let sent = page_payload(None, b"doc", "a.pdf", 4);
    assert_eq!(
        (sent.bytes.as_slice(), sent.filename.as_str(), sent.page),
        (b"doc".as_slice(), "a.pdf", Some(4))
    );
}

#[test]
fn one_block_is_edited() {
    let (mut store, id) = stored(1);
    read_all(&mut store, id, &[Some("หนึ่ง\n\nสอง")]);
    let req = edit("ตรวจ", Some(1), Some(1), None);
    let status = match edit_general_document(&mut store, id, &req).unwrap() {
        GeneralEdit::Block(pending) => {
            assert!(pending.prompt.contains("คำสั่ง: ตรวจ"));
            assert!(pending.prompt.contains("สอง"));
            pending.answered(&mut store, Ok("แก้แล้ว".into())).unwrap()
        }
        other => panic!("{other:?}"),
    };
    assert_eq!(status, "succeeded");
    let page = get_general_document_page(&mut store, id, 1).unwrap();
    assert_eq!(page.edited_text.as_deref(), Some("หนึ่ง\n\nแก้แล้ว"));
    let blocks = list_general_page_blocks(&mut store, id, 1).unwrap();
    assert_eq!(blocks[1].text.as_deref(), Some("แก้แล้ว"));
}

#[test]
fn pages_are_edited_in_turn() {
    let (mut store, id) = stored(2);
    read_all(&mut store, id, &[Some("หนึ่ง"), Some("สอง")]);
    let req = edit("ตรวจ", None, None, Some(true));
    let chosen = match edit_general_document(&mut store, id, &req).unwrap() {
        GeneralEdit::Rank(chosen) => chosen,
        other => panic!("{other:?}"),
    };
    let hits: Vec<Hit> = chosen
        .blocks
        .iter()
        .map(|b| Hit {
            key: 1.0f32.to_bits(),
            label: "1.000".to_string(),
            block: b.copy(),
        })
        .collect();
    let mut edits = chosen.with_hits(&hits);
    let mut prompts = Vec::new();
    let status = loop {
        prompts.push(edits.prompt());
        let answer = format!("แก้ {}", prompts.len());
        match edits.answered(&mut store, Ok(answer)).unwrap() {
            PageEditStep::More(next) => edits = next,
            PageEditStep::Finished(status) => break status,
        }
    };
    assert_eq!(status, "succeeded");
    assert_eq!(prompts.len(), 2);
    assert!(prompts[0].contains("score=1.000"));
    let page = get_general_document_page(&mut store, id, 2).unwrap();
    assert_eq!(page.edited_text.as_deref(), Some("แก้ 2"));
}

#[test]
fn edits_are_refused_with_a_reason() {
    let (mut store, id) = stored(1);
    let mut refusal = |req: GeneralEditRequest| {
        let refused = edit_general_document(&mut store, id, &req).unwrap_err();
        (refused.status, refused.detail)
    };
    assert_eq!(
        refusal(edit(" ", Some(1), None, None)),
        (400, "instruction is required".to_string())
    );
    assert_eq!(
        refusal(edit("x", Some(1), Some(9), None)),
        (400, "block 9 on page 1 not found".to_string())
    );
    assert_eq!(
        refusal(edit("x", Some(7), None, None)),
        (400, "no pages selected".to_string())
    );
    let (mut store, id) = stored(1);
    read_all(&mut store, id, &[Some("x")]);
    let req = edit("x", Some(1), Some(0), None);
    match edit_general_document(&mut store, id, &req).unwrap() {
        GeneralEdit::Block(pending) => {
            let refused = pending.answered(&mut store, Err("down".into())).unwrap_err();
            assert_eq!(refused.status, 502);
            assert_eq!(refused.detail, "general document edit failed: down");
        }
        other => panic!("{other:?}"),
    }
}

#[test]
fn missing_documents_are_not_found() {
    let (mut store, id) = stored(1);
    assert!(ensure_general_document(&mut store, id).is_ok());
    assert_eq!(general_document(&mut store, id).unwrap().filename, "manual.pdf");
    assert_eq!(get_general_document(&mut store, id).unwrap().1.len(), 1);
    assert_eq!(general_export_payload(&mut store, id).unwrap().1.len(), 1);
    let refused = general_page_image(&mut store, id, 1).unwrap_err();
    assert_eq!(
        (refused.status, refused.detail.as_str()),
        (404, "page image is not available")
    );
    assert_eq!(delete_general_document(&mut store, id).unwrap().id, id);
    for refused in [
        ensure_general_document(&mut store, id).unwrap_err(),
        get_general_document(&mut store, id).unwrap_err(),
        delete_general_document(&mut store, id).unwrap_err(),
        general_export_payload(&mut store, id).unwrap_err(),
        list_general_page_blocks(&mut store, id, 1).unwrap_err(),
    ] {
        assert_eq!(refused.status, 404);
        assert_eq!(refused.detail, format!("general document {id} not found"));
    }
    let refused = get_general_document_page(&mut store, id, 1).unwrap_err();
    assert_eq!(refused.detail, format!("general document page {id} not found"));
}

#[test]
fn page_images_are_kept() {
    let (mut store, id) = stored(1);
    let assets = vec![PageImageAsset {
        page_number: 1,
        path: Some("p.png".to_string()),
        width: Some(2),
        height: Some(3),
        warning: None,
    }];
    keep_page_assets(&mut store, id, &assets).unwrap();
    assert_eq!(general_page_image(&mut store, id, 1).unwrap(), "p.png");
    assert!(needs_page_images("a.pdf", &vec![true, false]));
    assert!(!needs_page_images("a.pdf", &vec![true, true]));
    assert_eq!(repaired_page_count(5, 3), Some(5));
    assert_eq!(repaired_page_count(3, 3), None);
}

#[test]
fn a_document_lies_under_its_number() {
    assert!(matches!(general_document_dir(7, Some("source")), DocumentDir::Grandparent));
    assert!(matches!(general_document_dir(7, Some("7")), DocumentDir::Parent));
    assert!(matches!(general_document_dir(7, Some("8")), DocumentDir::Nowhere));
    assert!(matches!(general_document_dir(7, None), DocumentDir::Nowhere));
}

#[test]
fn block_answers_hold_parsed_layouts() {
    let (mut store, id) = stored(1);
    let raw_json = json(r#"{"blocks":[{"type":"t","text":"x","bbox":[1,2,3,4]}]}"#);
    let blocks = extract_general_blocks(id, 1, "", &raw_json);
    let turn = match ocr_general_document(&mut store, id, 1).unwrap() {
        OcrStep::Read(turn) => turn,
        other => panic!("{other:?}"),
    };
    let output = OcrPageOutput {
        text: "x".to_string(),
        raw_json,
    };
    turn.finished(&mut store, Reading::Read { output, blocks }).unwrap();
    let block = &general_document_blocks(&mut store, id, Some(1)).unwrap()[0];
    let answer = GeneralBlockResponse::of_block(block);
    assert_eq!(answer.bbox.unwrap().to_text(), "[1,2,3,4]");
    assert!(answer.style.is_none());
    assert_eq!(answer.block_type, "t");
}

#[test]
fn page_images_are_rendered_by_the_first_tool_that_works() {
    let fitz = match prepare_general_page_images("A.PDF", "dir/", 2) {
        PageImages::Fitz(pending) => pending,
        other => panic!("{other:?}"),
    };
    match fitz.tried(ToolRun::Done(b"2\n".to_vec())) {
        PageImages::Known(list) => {
            assert_eq!(list.len(), 2);
            assert_eq!(list[1].path.as_deref(), Some("dir/page-002.png"));
        }
        other => panic!("{other:?}"),
    }
    let fitz = match prepare_general_page_images("a.pdf", "dir/", 2) {
        PageImages::Fitz(pending) => pending,
        other => panic!("{other:?}"),
    };
    let poppler = match fitz.tried(ToolRun::Done(b"1".to_vec())) {
        PageImages::Poppler(pending) => pending,
        other => panic!("{other:?}"),
    };
    match poppler.tried(ToolRun::Done(Vec::new()), &vec![true, false]) {
        PageImages::Known(list) => {
            assert_eq!(list[1].path, None);
            assert_eq!(list[1].warning.as_deref(), Some(NOT_PRODUCED));
        }
        other => panic!("{other:?}"),
    }
    match prepare_general_page_images("scan.PNG", "dir/", 1) {
        PageImages::Copy(pending) => {
            assert_eq!(pending.path, "dir/page-001.png");
            assert_eq!(pending.copied()[0].page_number, 1);
        }
        other => panic!("{other:?}"),
    }
    match prepare_general_page_images("scan.jpeg", "dir/", 1) {
        PageImages::Copy(pending) => assert_eq!(pending.path, "dir/page-001.jpg"),
        other => panic!("{other:?}"),
    }
}

#[test]
fn the_last_tool_shows_one_page_or_none() {
    let ask = || {
        let fitz = match prepare_general_page_images("a.pdf", "dir/", 2) {
            PageImages::Fitz(pending) => pending,
            other => panic!("{other:?}"),
        };
        let poppler = match fitz.tried(ToolRun::Absent) {
            PageImages::Poppler(pending) => pending,
            other => panic!("{other:?}"),
        };
        match poppler.tried(ToolRun::Failed, &vec![]) {
            PageImages::QuickLook(pending) => pending,
            other => panic!("{other:?}"),
        }
    };
    let list = ask().tried(true);
    assert_eq!(list[0].path.as_deref(), Some("dir/page-001.png"));
    assert_eq!(list.len(), 2);
    assert!(list[1].path.is_none() && list[1].warning.is_some());
    let list = ask().tried(false);
    assert!(list.iter().all(|a| a.path.is_none() && a.warning.is_some()));
}

#[test]
fn tools_are_told_what_to_render() {
    assert_eq!(page_image_name(7), "page-007.png");
    assert_eq!(page_image_name(1234), "page-1234.png");
    assert!(rendered_page_name(7).contains('7'));
    let args = fitz_args("s.pdf", "dir", 3);
    assert_eq!(args[0], "-c");
    assert_eq!(args[2..], ["s.pdf".to_string(), "dir".to_string(), "3".to_string()]);
    assert!(pdftoppm_args("s.pdf", "dir/page", 3).contains(&"s.pdf".to_string()));
    assert!(quicklook_args("s.pdf", "dir").contains(&"dir".to_string()));
    assert!(is_png_extension("PNG") && !is_png_extension("jpg"));
    let before = vec!["a".to_string()];
    let after = vec!["a".to_string(), "b".to_string()];
    assert_eq!(first_new_file(&before, &after), Some(1));
    assert_eq!(first_new_file(&after, &before), None);
}
