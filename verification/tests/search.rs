use govdoc::general_store::{GeneralDocumentBlock, GeneralDocumentPage};
use govdoc::search::{
    best_hits, block_in_scope, blocks_for_page, blocks_in_scope, general_context_for_page,
    general_context_for_selected_block, lexical_score, lexical_scores, page_text, page_text_from_blocks,
    rank_general_blocks, search_limit, search_query, Fraction, Hit, Scope,
};

fn block(page: i64, index: i64, kind: &str, text: Option<&str>) -> GeneralDocumentBlock {
    GeneralDocumentBlock {
        id: page * 100 + index,
        document_id: 1,
        page_number: page,
        block_index: index,
        block_type: kind.to_string(),
        text: text.map(str::to_string),
        bbox_json: None,
        style_json: None,
        image_path: None,
        embedding: None,
        created_at: "now".to_string(),
        updated_at: "now".to_string(),
    }
}

fn page(number: i64, ocr: Option<&str>, edited: Option<&str>) -> GeneralDocumentPage {
    GeneralDocumentPage {
        id: number,
        document_id: 1,
        page_number: number,
        status: "succeeded".to_string(),
        ocr_text: ocr.map(str::to_string),
        edited_text: edited.map(str::to_string),
        error: None,
        page_image_path: None,
        ocr_raw_json: None,
        page_width: None,
        page_height: None,
        layout_warning: None,
        updated_at: "now".to_string(),
    }
}

fn hit(score: f32, block: GeneralDocumentBlock) -> Hit {
    Hit {
        key: if score > 0.0 { score.to_bits() } else { 0 },
        label: format!("{score:.3}"),
        block,
    }
}

#[test]
fn the_best_hits_come_first() {
    let hits = vec![
        hit(0.5, block(2, 1, "p", None)),
        hit(0.0, block(1, 9, "p", None)),
        hit(0.5, block(2, 0, "p", None)),
        hit(1.0, block(3, 0, "p", None)),
        hit(0.5, block(1, 5, "p", None)),
        hit(-0.5, block(1, 1, "p", None)),
    ];
    let order: Vec<i64> = rank_general_blocks(&hits).iter().map(|h| h.block.id).collect();
    assert_eq!(order, vec![300, 105, 200, 201]);
    assert_eq!(best_hits(&hits, 2).len(), 2);
    assert_eq!(best_hits(&hits, 2)[0].block.id, 300);
    assert_eq!(best_hits(&hits, 50).len(), 4);
}

#[test]
fn words_are_counted() {
    assert_eq!(lexical_score("b c", "A B C"), Fraction { part: 1, whole: 1 });
    assert_eq!(lexical_score("a x c", "A B C"), Fraction { part: 2, whole: 3 });
    assert_eq!(lexical_score("zz", "A"), Fraction { part: 0, whole: 1 });
    assert_eq!(lexical_score("\u{3000}", "A"), Fraction { part: 0, whole: 0 });
    assert_eq!(lexical_score("straße", "STRASSE Straße"), Fraction { part: 1, whole: 1 });
    let blocks = vec![
        block(1, 0, "paragraph", Some("A B C")),
        block(1, 1, "image", None),
        block(1, 2, "paragraph", Some("c")),
    ];
    assert_eq!(
        lexical_scores("B X", &blocks),
        vec![
            Fraction { part: 1, whole: 2 },
            Fraction { part: 0, whole: 0 },
            Fraction { part: 0, whole: 2 },
        ]
    );
}

#[test]
fn searches_stay_in_scope() {
    let blocks = vec![
        block(1, 0, "heading", None),
        block(2, 0, "table", None),
        block(3, 0, "table", None),
    ];
    let scope = Scope {
        page_start: Some(2),
        page_end: Some(2),
        block_type: Some("table"),
    };
    let found: Vec<i64> = blocks_in_scope(&blocks, &scope).iter().map(|b| b.id).collect();
    assert_eq!(found, vec![200]);
    let all = Scope {
        page_start: None,
        page_end: None,
        block_type: None,
    };
    assert_eq!(blocks_in_scope(&blocks, &all).len(), 3);
    assert!(!block_in_scope(&blocks[0], &scope));
}

#[test]
fn searches_have_limits() {
    assert_eq!(search_limit(None), 10);
    assert_eq!(search_limit(Some(0)), 1);
    assert_eq!(search_limit(Some(7)), 7);
    assert_eq!(search_limit(Some(500)), 50);
    assert_eq!(search_query("  ก ").unwrap(), "ก");
    let refusal = search_query(" \n").unwrap_err();
    assert_eq!((refusal.status, refusal.detail.as_str()), (400, "query is required"));
}

#[test]
fn prompts_show_hits() {
    let hits: Vec<Hit> = (0..10)
        .map(|i| hit(0.25, block(1, i, "p", Some(&"ก".repeat(600)))))
        .chain([hit(1.0, block(2, 0, "t", None))])
        .collect();
    let shown = general_context_for_page(&hits, 1);
    assert_eq!(shown.lines().count(), 8);
    assert_eq!(
        shown.lines().next().unwrap(),
        format!("page=1 block=0 type=p score=0.250 bbox=- text={}", "ก".repeat(500))
    );
    assert_eq!(
        general_context_for_page(&hits, 2),
        "page=2 block=0 type=t score=1.000 bbox=- text="
    );
    assert_eq!(
        general_context_for_page(&hits, 3),
        "(ไม่มี block context ที่ match โดยตรง ใช้ข้อความหน้าปัจจุบันเป็นหลัก)"
    );
    assert_eq!(
        general_context_for_selected_block(&block(4, 2, "p", Some("x"))),
        "page=4 block=2 type=p bbox=- text=x"
    );
}

#[test]
fn pages_have_a_text() {
    let blocks = vec![
        block(1, 2, "p", Some(" b ")),
        block(2, 0, "p", Some("x")),
        block(1, 0, "p", Some("a")),
        block(1, 1, "p", Some("  ")),
    ];
    let own = blocks_for_page(&blocks, 1);
    assert_eq!(own.iter().map(|b| b.block_index).collect::<Vec<_>>(), vec![0, 1, 2]);
    assert_eq!(page_text_from_blocks(&own).as_deref(), Some("a\n\nb"));
    assert_eq!(page_text_from_blocks(&Vec::new()), None);
    assert_eq!(page_text_from_blocks(&vec![block(1, 0, "p", None)]), None);
    assert_eq!(page_text(&page(1, Some("o"), Some("e"))), "e");
    assert_eq!(page_text(&page(1, Some("o"), None)), "o");
    assert_eq!(page_text(&page(3, None, None)), "[หน้า 3 ยังไม่มีข้อความ OCR]");
}
