use localpipeline::mappings::BoardMapping;
use localpipeline::mappings::BoardMappings;

fn mapping(id: &str, name: &str, source: &str) -> BoardMapping {
    BoardMapping {
        board_id: id.to_string(),
        board_name: name.to_string(),
        source: source.to_string(),
    }
}

#[test]
fn save_then_load_keeps_both_mappings() {
    let mut t = BoardMappings::new();
    t.insert("/proj/a".to_string(), mapping("b1", "Sprint", "linear"));
    t.insert("/proj/b".to_string(), mapping("b2", "Backlog", "trello"));
    let doc = t.to_document();
    let t2 = BoardMappings::from_document(Some(doc.as_str()));
    assert_eq!(t2.len(), 2);
    let a = t2.get("/proj/a").unwrap();
    assert_eq!(a.board_id, "b1");
    assert_eq!(a.board_name, "Sprint");
    assert_eq!(a.source, "linear");
    let b = t2.get("/proj/b").unwrap();
    assert_eq!(b.board_id, "b2");
    assert_eq!(b.board_name, "Backlog");
    assert_eq!(b.source, "trello");
}

#[test]
fn document_text_is_canonical() {
    let mut t = BoardMappings::new();
    t.insert("/proj/a".to_string(), mapping("b1", "Sprint", "linear"));
    assert_eq!(
        t.to_document(),
        "{\"/proj/a\":{\"boardId\":\"b1\",\"boardName\":\"Sprint\",\"source\":\"linear\"}}"
    );
}

#[test]
fn empty_store_writes_empty_document() {
    let t = BoardMappings::new();
    assert_eq!(t.to_document(), "{}");
    let t2 = BoardMappings::from_document(Some("{}"));
    assert_eq!(t2.len(), 0);
}

#[test]
fn missing_file_loads_as_empty() {
    let t = BoardMappings::from_document(None);
    assert_eq!(t.len(), 0);
}

#[test]
fn corrupted_file_loads_as_empty() {
    assert_eq!(BoardMappings::from_document(Some("")).len(), 0);
    assert_eq!(BoardMappings::from_document(Some("not json at all")).len(), 0);
    assert_eq!(BoardMappings::from_document(Some("{\"/proj/a\":}")).len(), 0);
    assert_eq!(BoardMappings::from_document(Some("[1,2,3]")).len(), 0);
    let truncated = "{\"/proj/a\":{\"boardId\":\"b1\",\"boardName\":\"Spr";
    assert_eq!(BoardMappings::from_document(Some(truncated)).len(), 0);
}

#[test]
fn last_write_wins_for_same_directory() {
    let mut t = BoardMappings::new();
    t.insert("/proj/a".to_string(), mapping("b1", "Sprint", "linear"));
    t.insert("/proj/a".to_string(), mapping("b9", "Replanned", "jira"));
    assert_eq!(t.len(), 1);
    let a = t.get("/proj/a").unwrap();
    assert_eq!(a.board_id, "b9");
    assert_eq!(a.board_name, "Replanned");
    assert_eq!(a.source, "jira");
}

#[test]
fn lookup_of_unknown_directory_is_none() {
    let mut t = BoardMappings::new();
    t.insert("/proj/a".to_string(), mapping("b1", "Sprint", "linear"));
    assert!(t.get("/proj/b").is_none());
}

#[test]
fn quotes_and_backslashes_survive_the_round_trip() {
    let mut t = BoardMappings::new();
    t.insert(
        "C:\\work\\proj".to_string(),
        mapping("b\"1\"", "Board \\ \"quoted\"", "github"),
    );
    let doc = t.to_document();
    let t2 = BoardMappings::from_document(Some(doc.as_str()));
    assert_eq!(t2.len(), 1);
    let m = t2.get("C:\\work\\proj").unwrap();
    assert_eq!(m.board_id, "b\"1\"");
    assert_eq!(m.board_name, "Board \\ \"quoted\"");
    assert_eq!(m.source, "github");
}
