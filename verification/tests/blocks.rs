use govdoc::blocks::{
    block_from_json, embedding_text, extract_general_blocks, fallback_text_blocks,
    infer_block_type, looks_like_block_array,
};
use govdoc::json::Json;

fn json(text: &str) -> Json {
    Json::parse(text).unwrap()
}

#[test]
fn layouts_become_numbered_blocks() {
    let raw = json(
        r#"{"blocks":[
            {"type":"title","text":" หัวข้อ ","bbox":[1,2,3,4]},
            {"text":""},
            {"image":"data:xyz","caption":"ภาพ"},
            {"image_path":"p.png"}
        ]}"#,
    );
    let blocks = extract_general_blocks(9, 2, "ignored", &raw);
    assert_eq!(blocks.len(), 3);
    for (i, block) in blocks.iter().enumerate() {
        assert_eq!(block.document_id, 9);
        assert_eq!(block.page_number, 2);
        assert_eq!(block.block_index, i as i64);
    }
    assert_eq!(blocks[0].block_type, "title");
    assert_eq!(blocks[0].text.as_deref(), Some("หัวข้อ"));
    assert_eq!(blocks[0].bbox_json.as_deref(), Some("[1,2,3,4]"));
    assert_eq!(blocks[1].text.as_deref(), Some("ภาพ"));
    assert_eq!(blocks[1].image_path, None);
    assert_eq!(blocks[1].block_type, "paragraph");
    assert_eq!(blocks[2].block_type, "image");
}

#[test]
fn nested_layouts_are_searched() {
    let raw = json(r#"[{"layout":[{"bbox":1,"content":"a"}]},{"cells":{"lines":[{"kind":"x","type":"t","markdown":"b"}]}}]"#);
    let texts: Vec<String> = extract_general_blocks(1, 1, "", &raw)
        .into_iter()
        .map(|b| b.text.unwrap())
        .collect();
    assert_eq!(texts, vec!["a".to_string(), "b".to_string()]);
    match json(r#"[{"a":1},{"type":"x"}]"#) {
        Json::Array(items) => assert!(looks_like_block_array(&items)),
        other => panic!("{other:?}"),
    }
}

#[test]
fn text_is_split_where_there_is_no_layout() {
    let blocks = extract_general_blocks(1, 1, "หัวข้อ\n\n| a | b |\n\n\nPara. text", &json("{}"));
    let kinds: Vec<&str> = blocks.iter().map(|b| b.block_type.as_str()).collect();
    assert_eq!(kinds, vec!["heading", "table", "paragraph"]);
    let long = format!("{}\n  \n second ", "x".repeat(1300)).replace("\n  \n", "\n");
    let parts = fallback_text_blocks(&long);
    assert_eq!(parts.len(), 2);
    assert_eq!(parts[1].text.as_deref(), Some("second"));
    assert_eq!(infer_block_type(&"ก".repeat(39)), "heading");
    assert_eq!(infer_block_type(&"ก".repeat(40)), "paragraph");
}

#[test]
fn blocks_are_embedded_by_their_text() {
    let block = block_from_json(&json(r#"{"text":" ก "}"#)).unwrap();
    assert_eq!(embedding_text(&block).as_deref(), Some("ก"));
    let image = block_from_json(&json(r#"{"image_path":"p"}"#)).unwrap();
    assert_eq!(embedding_text(&image), None);
    assert!(block_from_json(&json(r#"{"text":"  "}"#)).is_none());
}
