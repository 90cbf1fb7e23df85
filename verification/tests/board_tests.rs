//! Tests of the tagged column decoder and the board model.
use gh_board::board::Board;
use gh_board::decode::{decode_item, decode_items, DecodeError};
use gh_board::json::JsonValue;

fn s(text: &str) -> String {
    String::from(text)
}

fn obj(pairs: Vec<(&str, JsonValue)>) -> JsonValue {
    JsonValue::Obj(pairs.into_iter().map(|(k, v)| (String::from(k), v)).collect())
}

fn tagged_column(tag: &str, value: JsonValue) -> JsonValue {
    obj(vec![("memexProjectColumnId", JsonValue::Str(s(tag))), ("value", value)])
}

fn item_with_columns(cols: Vec<JsonValue>) -> JsonValue {
    obj(vec![("id", JsonValue::Num(Some(7))), ("memexProjectColumnValues", JsonValue::Arr(cols))])
}

#[test]
fn title_object_round_trip() {
    let title_value = obj(vec![
        ("number", JsonValue::Num(Some(42))),
        ("title", obj(vec![("raw", JsonValue::Str(s("Fix bug")))])),
    ]);
    let item_json = item_with_columns(vec![tagged_column("Title", title_value)]);
    let item = decode_item(&item_json).unwrap();
    assert_eq!(item.number(), 42);
    assert_eq!(item.title(), "Fix bug");
}

#[test]
fn title_null_yields_empty_defaults() {
    let item_json = item_with_columns(vec![tagged_column("Title", JsonValue::Null)]);
    let item = decode_item(&item_json).unwrap();
    assert_eq!(item.title(), "");
    assert_eq!(item.number(), 0);
}

#[test]
fn assignees_null_yields_empty_list() {
    let item_json = item_with_columns(vec![tagged_column("Assignees", JsonValue::Null)]);
    let item = decode_item(&item_json).unwrap();
    assert!(item.assignee_logins().is_empty());
    assert_eq!(item.assignees(), "");
}

#[test]
fn title_bare_string_is_redacted_item() {
    let item_json =
        item_with_columns(vec![tagged_column("Title", JsonValue::Str(s("some text")))]);
    let item = decode_item(&item_json).unwrap();
    assert_eq!(item.title(), "some text");
    assert_eq!(item.number(), 0);
}

#[test]
fn status_and_repository_decode() {
    let item_json = item_with_columns(vec![
        tagged_column("Status", obj(vec![("id", JsonValue::Str(s("st-1")))])),
        tagged_column("Repository", obj(vec![("name", JsonValue::Str(s("repo")))])),
    ]);
    let item = decode_item(&item_json).unwrap();
    assert_eq!(item.status_id(), "st-1");
}

#[test]
fn status_null_yields_empty_id() {
    let item_json = item_with_columns(vec![tagged_column("Status", JsonValue::Null)]);
    let item = decode_item(&item_json).unwrap();
    assert_eq!(item.status_id(), "");
}

#[test]
fn title_number_of_other_shape_degrades_to_zero() {
    let title_value = obj(vec![
        ("number", JsonValue::Num(None)),
        ("title", obj(vec![("raw", JsonValue::Str(s("kept")))])),
    ]);
    let item_json = item_with_columns(vec![tagged_column("Title", title_value)]);
    let item = decode_item(&item_json).unwrap();
    assert_eq!(item.number(), 0);
    assert_eq!(item.title(), "kept");
}

#[test]
fn status_bare_string_degrades_to_empty_id() {
    let item_json = item_with_columns(vec![tagged_column("Status", JsonValue::Str(s("odd")))]);
    let item = decode_item(&item_json).unwrap();
    assert_eq!(item.status_id(), "");
}

#[test]
fn numeric_ids_convert_digit_for_digit() {
    let options = JsonValue::Arr(vec![obj(vec![
        ("id", JsonValue::Num(Some(1234567890))),
        ("name", JsonValue::Str(s("Big"))),
    ])]);
    let columns = JsonValue::Arr(vec![obj(vec![
        ("id", JsonValue::Str(s("Status"))),
        ("settings", obj(vec![("options", options)])),
    ])]);
    let (board, _) = Board::from_json(&JsonValue::Arr(vec![]), &columns).unwrap();
    assert_eq!(board.get_status_name("1234567890"), Some(String::from("Big")));
}

#[test]
fn duplicate_columns_last_wins() {
    let item_json = item_with_columns(vec![
        tagged_column("Status", obj(vec![("id", JsonValue::Str(s("first")))])),
        tagged_column("Status", obj(vec![("id", JsonValue::Str(s("second")))])),
    ]);
    let item = decode_item(&item_json).unwrap();
    assert_eq!(item.status_id(), "second");
}

#[test]
fn unknown_tag_is_skipped() {
    let item_json = item_with_columns(vec![
        tagged_column("Labels", JsonValue::Str(s("whatever"))),
        tagged_column("Title", JsonValue::Str(s("kept"))),
    ]);
    let item = decode_item(&item_json).unwrap();
    assert_eq!(item.title(), "kept");
}

#[test]
fn assignees_list_decodes_in_order() {
    let assignees = JsonValue::Arr(vec![
        obj(vec![("login", JsonValue::Str(s("alice")))]),
        obj(vec![("login", JsonValue::Str(s("bob")))]),
    ]);
    let item_json = item_with_columns(vec![tagged_column("Assignees", assignees)]);
    let item = decode_item(&item_json).unwrap();
    assert_eq!(item.assignees(), "alice,bob");
    assert!(item.contains_assignee("alice"));
    assert!(item.contains_assignee("bob"));
    assert!(!item.contains_assignee("Alice"));
    assert!(!item.contains_assignee("carol"));
}

#[test]
fn malformed_item_never_aborts_siblings() {
    let bad = obj(vec![("memexProjectColumnValues", JsonValue::Str(s("not a list")))]);
    let good = item_with_columns(vec![tagged_column("Title", JsonValue::Str(s("ok")))]);
    let collection = JsonValue::Arr(vec![bad, good]);
    let (items, issues) = decode_items(&collection).unwrap();
    assert_eq!(items.len(), 1);
    assert_eq!(items[0].title(), "ok");
    assert_eq!(issues.len(), 1);
    assert_eq!(issues[0].index, 0);
    assert_eq!(issues[0].error, DecodeError::ColumnsNotAList);
}

#[test]
fn untagged_column_fails_only_its_item() {
    let untagged = item_with_columns(vec![obj(vec![("value", JsonValue::Null)])]);
    let good = item_with_columns(vec![tagged_column("Title", JsonValue::Str(s("ok")))]);
    let collection = JsonValue::Arr(vec![untagged, good]);
    let (items, issues) = decode_items(&collection).unwrap();
    assert_eq!(items.len(), 1);
    assert_eq!(issues.len(), 1);
    assert_eq!(issues[0].error, DecodeError::ColumnNotTagged);
}

#[test]
fn items_collection_must_be_a_list() {
    let r = decode_items(&JsonValue::Str(s("nope")));
    assert_eq!(r.unwrap_err(), DecodeError::ItemsNotAList);
}

fn status_options_json() -> JsonValue {
    JsonValue::Arr(vec![
        obj(vec![("id", JsonValue::Str(s("Title"))), ("settings", JsonValue::Null)]),
        obj(vec![
            ("id", JsonValue::Str(s("Status"))),
            (
                "settings",
                obj(vec![(
                    "options",
                    JsonValue::Arr(vec![
                        obj(vec![
                            ("id", JsonValue::Str(s("st-1"))),
                            ("name", JsonValue::Str(s("Todo"))),
                        ]),
                        obj(vec![
                            ("id", JsonValue::Num(Some(42))),
                            ("name", JsonValue::Str(s("Done"))),
                        ]),
                    ]),
                )]),
            ),
        ]),
    ])
}

#[test]
fn status_name_found_and_not_found() {
    let (board, issues) =
        Board::from_json(&JsonValue::Arr(vec![]), &status_options_json()).unwrap();
    assert!(issues.is_empty());
    assert_eq!(board.get_status_name("st-1"), Some(String::from("Todo")));
    assert_eq!(board.get_status_name("missing"), None);
}

#[test]
fn status_option_id_given_as_number_reads_as_digits() {
    let (board, _) = Board::from_json(&JsonValue::Arr(vec![]), &status_options_json()).unwrap();
    assert_eq!(board.get_status_name("42"), Some(String::from("Done")));
}

#[test]
fn column_types_must_be_a_list() {
    let r = Board::from_json(&JsonValue::Arr(vec![]), &JsonValue::Null);
    assert_eq!(r.err().unwrap(), DecodeError::ColumnTypesNotAList);
}

#[test]
fn board_filters_by_status_and_assignee() {
    let item_a = item_with_columns(vec![
        tagged_column("Title", JsonValue::Str(s("a"))),
        tagged_column("Status", obj(vec![("id", JsonValue::Str(s("st-1")))])),
        tagged_column(
            "Assignees",
            JsonValue::Arr(vec![obj(vec![("login", JsonValue::Str(s("alice")))])]),
        ),
    ]);
    let item_b = item_with_columns(vec![
        tagged_column("Title", JsonValue::Str(s("b"))),
        tagged_column("Status", obj(vec![("id", JsonValue::Str(s("st-2")))])),
    ]);
    let (board, _) =
        Board::from_json(&JsonValue::Arr(vec![item_a, item_b]), &JsonValue::Arr(vec![])).unwrap();
    assert_eq!(board.items().len(), 2);
    let by_status = board.filter_by_status("st-1");
    assert_eq!(by_status.len(), 1);
    assert_eq!(by_status[0].title(), "a");
    let by_user = board.filter_by_assignee("alice");
    assert_eq!(by_user.len(), 1);
    assert_eq!(by_user[0].title(), "a");
    assert!(board.filter_by_assignee("bob").is_empty());
}

#[test]
fn from_json_text_parses_real_json() {
    let items_text = r#"[
        {"id": 9, "memexProjectColumnValues": [
            {"memexProjectColumnId": "Title",
             "value": {"number": 42, "title": {"raw": "Fix bug"}}},
            {"memexProjectColumnId": "Status", "value": {"id": "st-1"}}
        ]}
    ]"#;
    let columns_text = r#"[
        {"id": "Status", "settings": {"options": [{"id": "st-1", "name": "Todo"}]}}
    ]"#;
    let (board, issues) = Board::from_json_text(items_text, columns_text).unwrap();
    assert!(issues.is_empty());
    let items = board.items();
    assert_eq!(items.len(), 1);
    assert_eq!(items[0].number(), 42);
    assert_eq!(items[0].title(), "Fix bug");
    assert_eq!(items[0].status_id(), "st-1");
    assert_eq!(board.get_status_name("st-1"), Some(String::from("Todo")));
}

#[test]
fn from_json_text_rejects_malformed_text() {
    let r = Board::from_json_text("not json at all {", "[]");
    assert_eq!(r.err().unwrap(), DecodeError::MalformedJson);
}
