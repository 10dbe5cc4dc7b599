use native_lbb::html::{escape_html, render_device_ui_html, CSS_SNIPPET};

fn page(body: &str) -> String {
    format!("{}<ul>{}</ul>", CSS_SNIPPET, body)
}

#[test]
fn escape_special_characters() {
    assert_eq!(escape_html("a<b>&\"c'"), "a&lt;b&gt;&amp;&quot;c&#39;");
    assert_eq!(escape_html(""), "");
    assert_eq!(escape_html("héllo"), "héllo");
}

#[test]
fn render_text_without_tags() {
    assert_eq!(render_device_ui_html("just text"), Ok(page("")));
    assert_eq!(render_device_ui_html(""), Ok(page("")));
}

#[test]
fn render_nested_elements() {
    let html = render_device_ui_html("<?xml version=\"1.0\"?><a><!-- c --><b x=\"1\"/></a>").unwrap();
    assert_eq!(
        html,
        page("<li>a<ul><li>b [<span class=\"attributes\">x</span>=<span class=\"text\">\"1\"</span>] </li></ul></li>")
    );
}

#[test]
fn render_closes_open_elements() {
    let html = render_device_ui_html("<a><b>").unwrap();
    assert_eq!(html, page("<li>a<ul><li>b</li></ul></li>"));
}

#[test]
fn render_escapes_attribute_values() {
    let html = render_device_ui_html("<n t='a<b' />").unwrap();
    assert_eq!(
        html,
        page("<li>n [<span class=\"attributes\">t</span>=<span class=\"text\">\"a&lt;b\"</span>] </li>")
    );
}

#[test]
fn render_errors() {
    assert_eq!(render_device_ui_html("<a x>"), Err("Malformed attribute".to_string()));
    assert_eq!(render_device_ui_html("<a x y>"), Err("Malformed attribute assignment".to_string()));
    assert_eq!(render_device_ui_html("<a x= "), Err("Missing attribute value".to_string()));
    assert_eq!(render_device_ui_html("<a x=1>"), Err("Attribute value must be quoted".to_string()));
    assert_eq!(render_device_ui_html("<a x=\"1>"), Err("Unterminated attribute value".to_string()));
}
