//! Replies in XML.
use ami_s3_archive::xml::{
    parse_delete_snapshot_results, parse_store_image_tasks, xml_escape, xml_item_chunks,
    xml_tag_first, xml_tag_one, xml_tags_all, xml_unescape,
};

#[test]
fn parses_store_image_task() {
    let body = r#"<item><imageId>ami-abc</imageId><bucket>b</bucket><objectKey>k.bin</objectKey><storeTaskState>Completed</storeTaskState></item>"#;
    let tasks = parse_store_image_tasks(body);
    assert_eq!(tasks.len(), 1);
    assert_eq!(tasks[0].image_id, "ami-abc");
    assert_eq!(tasks[0].state, "Completed");
}

#[test]
fn tasks_without_an_image_are_left_out() {
    let body = "<item><bucket>b</bucket></item><item><amiId></amiId></item>\
        <item><amiId>ami-1</amiId><imageId>ami-2</imageId><s3objectKey>k</s3objectKey>\
        <state>InProgress</state><progressPercentage>42</progressPercentage></item><item>";
    let tasks = parse_store_image_tasks(body);
    assert_eq!(tasks.len(), 1);
    assert_eq!(tasks[0].image_id, "ami-1");
    assert_eq!(tasks[0].bucket, "");
    assert_eq!(tasks[0].object_key, "k");
    assert_eq!(tasks[0].state, "InProgress");
    assert_eq!(tasks[0].progress, "42");
}

#[test]
fn escaping_is_undone_by_unescaping() {
    let text = "a<b>&\"c\"'d' &amp; é &lt;";
    assert_eq!(xml_escape("<&>\"'"), "&lt;&amp;&gt;&quot;&apos;");
    assert_eq!(xml_unescape(&xml_escape(text)), text);
    assert_eq!(xml_unescape("&amp;lt;"), "&lt;");
    assert_eq!(xml_unescape("&lt;&unknown;"), "<&unknown;");
}

#[test]
fn elements_are_read_back() {
    let written = format!("<x/><t>{}</t>rest", xml_escape("a & <b>"));
    assert_eq!(xml_tag_one(&written, "t"), Some("a & <b>".to_string()));
    assert_eq!(xml_tag_one("<t> v </t>", "t"), Some("v".to_string()));
    assert_eq!(xml_tag_one("<t>v", "t"), None);
    assert_eq!(xml_tag_one("</t><t>é</t>", "t"), Some("é".to_string()));
    assert_eq!(xml_tag_one("<tt>v</tt>", "t"), None);
    assert_eq!(xml_tag_first("<b>2</b><a>1</a>", &["a", "b"]), Some("1".to_string()));
    assert_eq!(xml_tag_first("<b>2</b>", &["a", "b"]), Some("2".to_string()));
    assert_eq!(xml_tag_first("<b>2</b>", &[]), None);
}

#[test]
fn all_elements_and_items_are_found_in_order() {
    assert_eq!(xml_tags_all("<s>1</s><s>2</s><x/><s>3", "s"), vec!["1", "2"]);
    assert_eq!(
        xml_item_chunks("é<item>a</item>b<item>c</item><item>"),
        vec!["<item>a</item>", "<item>c</item>"],
    );
    let body = "<item><snapshotId>snap-1</snapshotId><returnCode>success</returnCode></item>\
        <item><returnCode>x</returnCode></item><item><snapshotId>snap-2</snapshotId></item>";
    assert_eq!(
        parse_delete_snapshot_results(body),
        vec![
            ("snap-1".to_string(), "success".to_string()),
            ("snap-2".to_string(), String::new()),
        ],
    );
}

#[test]
fn entities_are_read_once() {
    assert_eq!(xml_unescape("&amp;amp;"), "&amp;");
    assert_eq!(xml_unescape("&&lt;gt;"), "&<gt;");
    assert_eq!(xml_unescape("&amp;quot; &quot;"), "&quot; \"");
}
