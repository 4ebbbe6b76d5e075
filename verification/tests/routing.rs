use codex_plus_core::json::{parse_json, render_json, Json};
use codex_plus_core::relay_proxy::routing::{
    collect_text_content, decide_route, prompt_asks_for_image_generation, prompt_key,
    remove_image_generation_tools, request_requires_image_generation,
    tool_choice_is_image_generation, tool_is_image_generation, value_mentions_image_generation,
    RouteDecision,
};
use codex_plus_core::relay_proxy::{route_request, RelayRoute};
use serde_json::Value;

fn text(value: &str) -> Value {
    Value::String(value.to_string())
}

fn object(entries: Vec<(&str, Value)>) -> Value {
    let mut map = serde_json::Map::new();
    for (key, value) in entries {
        map.insert(key.to_string(), value);
    }
    Value::Object(map)
}

fn tool(kind: &str) -> Value {
    object(vec![("type", text(kind))])
}

fn bytes(value: &Value) -> Vec<u8> {
    serde_json::to_vec(value).unwrap()
}

fn json(source: &str) -> Json {
    parse_json(source.as_bytes()).unwrap()
}

#[test]
fn route_request_removes_advertised_image_generation_tool_for_regular_text() {
    let body = bytes(&object(vec![
        ("input", text("hello")),
        (
            "tools",
            Value::Array(vec![tool("image_generation"), tool("web_search")]),
        ),
    ]));
    let routed = route_request(&body, true);
    let value: Value = serde_json::from_slice(&routed.body).unwrap();

    assert_eq!(routed.route, RelayRoute::Text);
    assert_eq!(value["tools"].as_array().unwrap().len(), 1);
    assert_eq!(value["tools"][0]["type"], "web_search");
}

#[test]
fn route_request_uses_image_api_for_forced_image_tool_choice() {
    let body = bytes(&object(vec![
        ("input", text("make one")),
        ("tools", Value::Array(vec![tool("image_generation")])),
        ("tool_choice", tool("image_generation")),
    ]));

    assert_eq!(route_request(&body, true).route, RelayRoute::Image);
}

#[test]
fn route_request_uses_image_api_for_image_prompt() {
    let body = bytes(&object(vec![
        ("input", text("请生成图片：一辆红色跑车")),
        ("tools", Value::Array(vec![tool("image_generation")])),
    ]));

    assert_eq!(route_request(&body, true).route, RelayRoute::Image);
}

#[test]
fn route_request_removes_image_tool_when_image_route_is_disabled() {
    let body = bytes(&object(vec![
        ("input", text("请生成图片：一辆红色跑车")),
        (
            "tools",
            Value::Array(vec![tool("image_generation"), tool("web_search")]),
        ),
        ("tool_choice", tool("image_generation")),
    ]));

    let routed = route_request(&body, false);
    let value: Value = serde_json::from_slice(&routed.body).unwrap();

    assert_eq!(routed.route, RelayRoute::Text);
    assert_eq!(value["tools"].as_array().unwrap().len(), 1);
    assert_eq!(value["tools"][0]["type"], "web_search");
    assert!(value.get("tool_choice").is_none());
}

#[test]
fn body_that_is_not_json_is_sent_as_it_is() {
    let routed = route_request(b"generate image {", true);
    assert_eq!(routed.route, RelayRoute::Text);
    assert_eq!(routed.body, b"generate image {");
    assert_eq!(route_request(b"", true).body, b"");
    assert_eq!(route_request(&[0xff, 0xfe], true).body, [0xff, 0xfe]);
}

#[test]
fn image_request_is_sent_byte_for_byte() {
    let body = b"{ \"input\" :  \"Please DRAW a cat\" , \"tools\":[] }";
    let routed = route_request(body, true);
    assert_eq!(routed.route, RelayRoute::Image);
    assert_eq!(routed.body, body);
}

#[test]
fn text_request_is_written_anew_with_sorted_keys() {
    let routed = route_request(b"{ \"model\" : \"m\" , \"input\" : [1, 2.5, null] }", true);
    assert_eq!(routed.route, RelayRoute::Text);
    assert_eq!(routed.body, b"{\"input\":[1,2.5,null],\"model\":\"m\"}");
}

#[test]
fn value_nested_too_deeply_is_sent_as_it_is() {
    let body = format!("{}{}", "[".repeat(200), "]".repeat(200));
    let routed = route_request(body.as_bytes(), true);
    assert_eq!(routed.route, RelayRoute::Text);
    assert_eq!(routed.body, body.as_bytes());
}

#[test]
fn value_nested_as_deeply_as_can_be_read_is_read_back() {
    let body = format!("{}{}", "[".repeat(127), "]".repeat(127));
    let routed = route_request(body.as_bytes(), true);
    assert_eq!(routed.body, body.as_bytes());
    assert!(parse_json(body.as_bytes()).is_some());
    assert!(parse_json(format!("[{}]", body).as_bytes()).is_none());
}

#[test]
fn names_of_routes() {
    assert_eq!(RelayRoute::Text.as_str(), "text");
    assert_eq!(RelayRoute::Image.as_str(), "image");
}

#[test]
fn mentions_of_image_generation() {
    assert!(value_mentions_image_generation(&json("\"image_generation\"")));
    assert!(value_mentions_image_generation(&json("[1,[\"image_generation\"]]")));
    assert!(value_mentions_image_generation(&json("{\"a\":{\"b\":\"image_generation\"}}")));
    assert!(!value_mentions_image_generation(&json("{\"a\":\"web_search\"}")));
    assert!(!value_mentions_image_generation(&json("12")));
}

#[test]
fn image_tools() {
    assert!(tool_is_image_generation(&json("{\"type\":\"image_generation\"}")));
    assert!(!tool_is_image_generation(&json("{\"type\":\"web_search\"}")));
    assert!(tool_is_image_generation(&json("{\"type\":\"imageGeneration\"}")));
    assert!(!tool_is_image_generation(&json("{}")));
}

#[test]
fn forced_tools() {
    assert!(tool_choice_is_image_generation(&json(
        "{\"tool_choice\":\"image_generation\"}"
    )));
    assert!(!tool_choice_is_image_generation(&json("{\"tool_choice\":\"auto\"}")));
    assert!(!tool_choice_is_image_generation(&json("{\"tools\":[\"image_generation\"]}")));
}

#[test]
fn prompts_that_ask_for_images() {
    for prompt in [
        "Generate Image of a cat",
        "please create image",
        "Draw a cat",
        "创建图片",
        "画一张猫",
        "绘制",
        "请生成图片",
    ] {
        let value = parse_json(&bytes(&object(vec![("input", text(prompt))]))).unwrap();
        assert!(prompt_asks_for_image_generation(&value), "{prompt}");
        assert!(request_requires_image_generation(&value), "{prompt}");
    }
    for prompt in ["hello", "drawing", "generate an image"] {
        let value = parse_json(&bytes(&object(vec![("input", text(prompt))]))).unwrap();
        assert!(!prompt_asks_for_image_generation(&value), "{prompt}");
        assert!(!request_requires_image_generation(&value), "{prompt}");
    }
}

#[test]
fn text_is_collected_in_order() {
    let value = json("[{\"content\":[{\"text\":\"one\"}]},\"two\",3]");
    let mut output = String::new();
    collect_text_content(&value, &mut output);
    assert_eq!(output, "one\ntwo\n");
}

#[test]
fn keys_that_hold_prompts() {
    assert!(prompt_key("content"));
    assert!(prompt_key("text"));
    assert!(!prompt_key("model"));
}

fn cleaned(source: &str) -> String {
    String::from_utf8(render_json(remove_image_generation_tools(json(source))).unwrap()).unwrap()
}

#[test]
fn both_spellings_and_asked_results_are_removed() {
    assert_eq!(
        cleaned("{\"tools\":[{\"type\":\"imageGeneration\"},{\"type\":\"function\",\"name\":\"f\"}],\"include\":[\"image_generation_call.results\",\"x\"]}"),
        "{\"include\":[\"x\"],\"tools\":[{\"name\":\"f\",\"type\":\"function\"}]}"
    );
    assert_eq!(
        cleaned("{\"include\":[\"image_generation_call\",1,[\"image_generation_call.a\"]],\"tools\":\"imageGeneration\"}"),
        "{\"include\":[\"image_generation_call\",1,[\"image_generation_call.a\"]],\"tools\":\"imageGeneration\"}"
    );
}

#[test]
fn allowed_tools_keep_what_is_no_image_tool() {
    assert_eq!(
        cleaned("{\"tool_choice\":{\"type\":\"allowed_tools\",\"tools\":[{\"type\":\"image_generation\"},{\"type\":\"function\",\"name\":\"f\"}]}}"),
        "{\"tool_choice\":{\"tools\":[{\"name\":\"f\",\"type\":\"function\"}],\"type\":\"allowed_tools\"}}"
    );
    assert_eq!(
        cleaned("{\"tool_choice\":{\"type\":\"allowed_tools\",\"tools\":\"image_generation\"}}"),
        "{}"
    );
}

#[test]
fn choices_of_the_image_tool_are_dropped() {
    assert_eq!(cleaned("{\"tool_choice\":{\"type\":\"imageGeneration\"}}"), "{}");
    assert_eq!(cleaned("{\"tool_choice\":\"imageGeneration\"}"), "{}");
    assert_eq!(cleaned("{\"tool_choice\":\"image_generation\"}"), "{}");
    assert_eq!(cleaned("{\"tool_choice\":\"auto\"}"), "{\"tool_choice\":\"auto\"}");
}

#[test]
fn integers_are_told_from_other_numbers() {
    assert!(json("{\"a\":[1,-2,18446744073709551615,\"1.5\"],\"b\":null}").is_integral());
    assert!(!json("{\"a\":[1,2.0]}").is_integral());
    assert!(!json("1e2").is_integral());
    assert!(!json("99999999999999999999").is_integral());
}

#[test]
fn sanitizing_twice_changes_nothing_more() {
    let source = "{\"a\":{\"tools\":[{\"type\":\"image_generation\"},1]},\"tools\":[{\"type\":\"image_generation\"}]}";
    let once = remove_image_generation_tools(json(source));
    let again = remove_image_generation_tools(remove_image_generation_tools(json(source)));
    assert_eq!(render_json(once), render_json(again));
}

#[test]
fn decisions_on_bodies() {
    assert!(matches!(
        decide_route(None, true),
        RouteDecision::Unchanged(RelayRoute::Text)
    ));
    assert!(matches!(
        decide_route(Some(json("{\"input\":\"draw me\"}")), true),
        RouteDecision::Unchanged(RelayRoute::Image)
    ));
    match decide_route(Some(json("{\"input\":\"draw me\",\"tools\":[]}")), false) {
        RouteDecision::Rewritten(value) => {
            assert!(value.get("input").is_some());
            assert!(value.get("missing").is_none());
        }
        RouteDecision::Unchanged(_) => panic!("the body is rewritten"),
    }
}

#[test]
fn json_is_read_and_written_back() {
    let source = "{\"a\":[true,false,null],\"b\":{\"c\":\"\\u00e9\\n\"},\"d\":-12.5}";
    let value = json(source);
    assert_eq!(
        value.get("a"),
        Some(&Json::Array(vec![Json::Bool(true), Json::Bool(false), Json::Null]))
    );
    let written = render_json(value).unwrap();
    assert_eq!(written, "{\"a\":[true,false,null],\"b\":{\"c\":\"é\\n\"},\"d\":-12.5}".as_bytes());
    assert!(parse_json(b"{\"a\":}").is_none());
    assert!(parse_json(b"1 2").is_none());
}

#[test]
fn the_last_of_equal_keys_counts() {
    let routed = route_request(b"{\"a\":1,\"a\":2}", true);
    assert_eq!(routed.body, b"{\"a\":2}");
}

#[test]
fn integers_are_kept() {
    let body = b"{\"a\":[18446744073709551615,-9223372036854775808,0,7],\"tools\":[]}";
    assert_eq!(route_request(body, true).body, body);
}

#[test]
fn routing_twice_changes_nothing() {
    let body = b"{ \"tools\": [{\"type\":\"image_generation\"}, 3], \"input\": \"hi\", \"n\": 12 }";
    for allowed in [true, false] {
        let once = route_request(body, allowed);
        assert_eq!(once.route, RelayRoute::Text);
        let twice = route_request(&once.body, allowed);
        assert_eq!(twice.route, RelayRoute::Text);
        assert_eq!(twice.body, once.body);
    }
}
