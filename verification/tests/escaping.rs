use openbim_dt::Document;

#[test]
fn escaped_text_and_attribute_values_read_back() {
    let xml = "<a v=\"tab&#x9;line&#xA;cr&#xD;quote&quot;amp&amp;lt&lt;gt>\">x&lt;y&gt;z&amp;w&#13;</a>";
    let first = Document::parse(xml).expect("parse");
    assert_eq!(first.root().attributes()[0].value(), "tab\tline\ncr\rquote\"amp&lt<gt>");
    assert_eq!(first.root().direct_text(), "x<y>z&w\r");
    let written = first.to_xml_string().expect("write");
    let second = Document::parse(&written).expect("reparse");
    assert_eq!(second.root().attributes()[0].value(), first.root().attributes()[0].value());
    assert_eq!(second.root().direct_text(), first.root().direct_text());
    assert_eq!(first, second);
}

#[test]
fn raw_white_space_in_attribute_values_becomes_spaces() {
    let document = Document::parse("<a v=\"one\ttwo\r\nthree\"/>").expect("parse");
    assert_eq!(document.root().attributes()[0].value(), "one two three");
}

#[test]
fn raw_line_ends_in_text_become_line_feeds() {
    let document = Document::parse("<a>one\r\ntwo\rthree</a>").expect("parse");
    assert_eq!(document.root().direct_text(), "one\ntwo\nthree");
}

#[test]
fn comments_cdata_and_instructions_read_back() {
    let xml = "<?keep some data?><a><!-- a - b --><![CDATA[x ]] > y]]><?target?></a><!--tail-->";
    let first = Document::parse(xml).expect("parse");
    let written = first.to_xml_string().expect("write");
    assert!(written.contains("<!-- a - b -->"));
    assert!(written.contains("<![CDATA[x ]] > y]]>"));
    assert!(written.contains("<?target?>"));
    assert!(written.contains("<?keep some data?>"));
    let second = Document::parse(&written).expect("reparse");
    assert_eq!(first, second);
}

#[test]
fn line_ends_in_comments_are_normalized() {
    let document = Document::parse("<a><!--one\r\ntwo--></a>").expect("parse");
    let written = document.to_xml_string().expect("write");
    assert!(written.contains("<!--one\ntwo-->"));
}
