//! Messages of a request as they arrive.

use spark_server::ir::message::{ContentPart, ImageData, ImageSource, Message, Reasoning, Role};
use spark_server::json::{object, string};
use spark_server::openai::chat_message::{IncomingMessage, ParsedContent};
use spark_server::tool_parser::{IncomingFunction, IncomingToolCall};

fn msg(role: &str) -> IncomingMessage {
    IncomingMessage {
        role: role.to_string(),
        content: ParsedContent::default(),
        tool_calls: None,
        tool_call_id: None,
        name: None,
        reasoning_content: None,
    }
}

#[test]
fn to_ir_text_only_user_message() {
    let mut m = msg("user");
    m.content.text = "hi".into();
    let ir: Message = (&m).into();
    assert_eq!(ir.role, Role::User);
    assert_eq!(ir.content, vec![ContentPart::Text("hi".into())]);
    assert_eq!(ir.image_count(), 0);
    assert!(ir.tool_calls.is_empty());
    assert!(ir.reasoning.is_none());
    assert!(!ir.tool_error);
}

#[test]
fn to_ir_empty_content_yields_no_parts() {
    let m = msg("user");
    let ir: Message = (&m).into();
    assert!(ir.content.is_empty());
    assert_eq!(ir.text(), "");
}

#[test]
fn to_ir_images_precede_text_and_are_preserved_verbatim() {
    let mut m = msg("user");
    m.content.text = "see".into();
    m.content.images = vec!["data:image/png;base64,AAA".into()];
    let ir: Message = (&m).into();
    // Images first (matches the template's [image*N, text] order), then text.
    assert_eq!(
        ir.content,
        vec![
            ContentPart::Image(ImageSource {
                data: ImageData::Base64("data:image/png;base64,AAA".into()),
            }),
            ContentPart::Text("see".into()),
        ]
    );
    assert_eq!(ir.image_count(), 1);
}

#[test]
fn remote_url_image_classified_as_url_variant() {
    // http(s) strings must become ImageData::Url so the pipeline can
    // reject them explicitly — mislabeling them Base64 produced a
    // confusing "base64 decode failed" from the vision preprocessor.
    let mut m = msg("user");
    m.content.images = vec![
        "https://example.com/cat.png".into(),
        "data:image/png;base64,AAA".into(),
    ];
    let ir: Message = (&m).into();
    assert_eq!(
        ir.content,
        vec![
            ContentPart::Image(ImageSource {
                data: ImageData::Url("https://example.com/cat.png".into()),
            }),
            ContentPart::Image(ImageSource {
                data: ImageData::Base64("data:image/png;base64,AAA".into()),
            }),
        ]
    );
}

#[test]
fn to_ir_assistant_tool_calls_parse_arguments_to_json() {
    let mut m = msg("assistant");
    m.tool_calls = Some(vec![IncomingToolCall {
        id: Some("call_1".into()),
        function: IncomingFunction {
            name: "get_weather".into(),
            arguments: r#"{"city":"SF"}"#.into(),
        },
    }]);
    let ir: Message = (&m).into();
    assert_eq!(ir.role, Role::Assistant);
    assert_eq!(ir.tool_calls.len(), 1);
    assert_eq!(ir.tool_calls[0].id, "call_1");
    assert_eq!(ir.tool_calls[0].name, "get_weather");
    assert_eq!(
        ir.tool_calls[0].arguments,
        object(vec![("city".into(), string("SF"))])
    );
}

#[test]
fn to_ir_malformed_tool_args_default_to_empty_object() {
    let mut m = msg("assistant");
    m.tool_calls = Some(vec![IncomingToolCall {
        id: None,
        function: IncomingFunction {
            name: "f".into(),
            arguments: "not json".into(),
        },
    }]);
    let ir: Message = (&m).into();
    assert_eq!(ir.tool_calls[0].id, "");
    assert_eq!(ir.tool_calls[0].arguments, object(vec![]));
}

#[test]
fn to_ir_reasoning_content_maps_to_first_class_reasoning() {
    let mut m = msg("assistant");
    m.reasoning_content = Some("ponder".into());
    let ir: Message = (&m).into();
    assert_eq!(
        ir.reasoning,
        Some(Reasoning {
            text: "ponder".into()
        })
    );

    let m2 = msg("assistant");
    let ir2: Message = (&m2).into();
    assert!(ir2.reasoning.is_none());
}

#[test]
fn to_ir_tool_message_preserves_call_id_and_name() {
    let mut m = msg("tool");
    m.content.text = "exit 0".into();
    m.tool_call_id = Some("call_1".into());
    m.name = Some("bash".into());
    let ir: Message = (&m).into();
    assert_eq!(ir.role, Role::Tool);
    assert_eq!(ir.tool_call_id.as_deref(), Some("call_1"));
    assert_eq!(ir.name.as_deref(), Some("bash"));
    assert_eq!(ir.text(), "exit 0");
}

#[test]
fn to_ir_unknown_role_is_preserved_losslessly() {
    let m = msg("developer");
    let ir: Message = (&m).into();
    assert_eq!(ir.role, Role::Other("developer".into()));
    assert_eq!(ir.role.as_wire(), "developer");
}
