use mission_control::collector::pi::parse_content;
use mission_control::json::JsonValue;
use mission_control::schema::raw_signals::ContentBlock;

fn s(t: &str) -> String {
    t.to_string()
}

fn obj(entries: Vec<(&str, JsonValue)>) -> JsonValue {
    JsonValue::Object(entries.into_iter().map(|(k, v)| (s(k), v)).collect())
}

#[test]
fn parse_content_toolcall_camelcase() {
    let json = JsonValue::Array(vec![
        obj(vec![
            ("type", JsonValue::Str(s("toolCall"))),
            ("name", JsonValue::Str(s("bash"))),
            ("arguments", obj(vec![("command", JsonValue::Str(s("ls")))])),
        ]),
        obj(vec![
            ("type", JsonValue::Str(s("toolResult"))),
            ("content", JsonValue::Array(vec![obj(vec![("text", JsonValue::Str(s("file.txt")))])])),
            ("isError", JsonValue::Bool(false)),
        ]),
        obj(vec![
            ("type", JsonValue::Str(s("text"))),
            ("text", JsonValue::Str(s("Done!"))),
        ]),
    ]);
    let blocks = parse_content(&json);
    assert_eq!(blocks.len(), 3);
    assert!(matches!(blocks[0], ContentBlock::ToolCall { .. }));
    assert!(matches!(blocks[1], ContentBlock::ToolResult { .. }));
    assert!(matches!(blocks[2], ContentBlock::Text { .. }));
}

#[test]
fn parse_content_string_fallback() {
    let json = JsonValue::Str(s("hello world"));
    let blocks = parse_content(&json);
    assert_eq!(blocks.len(), 1);
    assert!(matches!(blocks[0], ContentBlock::Text { .. }));
}
