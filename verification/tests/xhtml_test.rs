use rust_epub::xhtml::{StyleContent, XHtmlLinkItem, XHtmlRoot};

#[test]
fn test_encode_xml() {
    let mut html = XHtmlRoot::default();

    html.set_title(String::from("第1章 大语言模型：辩论、争议与未来发展方向"));
    html.add_link(XHtmlLinkItem::new(
        String::from("https://www.epubit.com/book/25106"),
        String::from("text/html"),
        None,
    ));

    html.add_style_content(String::from("body {font-size: 14px;}"));
    html.add_style_content(String::from("h1 {font-size: 20px;}"));
    html.add_style(StyleContent::new(
        String::from("p {font-size: 14px;}"),
        String::from("text/css"),
    ));

    html.set_body(String::from(
        "<h1>第1章 大语言模型：辩论、争议与未来发展方向</h1>",
    ));

    let ret = html.encode_xml();

    println!("ret: {:?}", ret);
    assert!(ret.is_ok());
}

#[test]
fn xhtml_exact_document() {
    let mut html = XHtmlRoot::default();
    html.set_title(String::from("A & B"));
    html.set_body(String::from("<p>hi</p>"));
    let out = html.encode_xml().unwrap();
    let mut expected = String::new();
    expected.push_str("<?xml version=\"1.0\" encoding=\"UTF-8\" ?>\n<!DOCTYPE html>\n");
    expected.push_str(
        "<html xmlns=\"http://www.w3.org/1999/xhtml\" xmlns:epub=\"http://www.idpf.org/2007/ops\">",
    );
    expected.push_str("<head><title>A &amp; B</title></head>");
    expected.push_str("<body dir=\"auto\"><p>hi</p></body>");
    expected.push_str("</html>");
    assert_eq!(out, expected);
}

#[test]
fn xhtml_escapes_head_but_not_body() {
    // the title is escaped; the body is caller-supplied markup, wrapped
    // verbatim
    let mut html = XHtmlRoot::default();
    html.set_title(String::from("<\"'&>"));
    html.set_body(String::from("<p>&amp;</p>"));
    let out = html.encode_xml().unwrap();
    assert!(out.contains("<title>&lt;&quot;&apos;&amp;&gt;</title>"));
    assert!(out.contains("<body dir=\"auto\"><p>&amp;</p></body>"));
}

#[test]
fn xhtml_links_and_styles() {
    let mut html = XHtmlRoot::default();
    html.set_title(String::from("t"));
    html.add_link(XHtmlLinkItem::new(
        String::from("../css/style.css"),
        String::from("text/css"),
        Some(String::from("stylesheet")),
    ));
    html.add_style_content(String::from("p {color: red;}"));
    let out = html.encode_xml().unwrap();
    assert!(out.contains(
        "<link href=\"../css/style.css\" rel=\"stylesheet\" type=\"text/css\"/>"
    ));
    assert!(out.contains("<style type=\"text/css\">p {color: red;}</style>"));
}

#[test]
fn blank_attribute_values_are_omitted() {
    // a rel value of whitespace (including non-breaking space) is treated
    // as unpopulated and left out
    let mut html = XHtmlRoot::default();
    html.set_title(String::from("t"));
    html.add_link(XHtmlLinkItem::new(
        String::from("x.css"),
        String::from("text/css"),
        Some(String::from("\u{A0} \t")),
    ));
    let out = html.encode_xml().unwrap();
    assert!(out.contains("<link href=\"x.css\" type=\"text/css\"/>"));
    assert!(!out.contains("rel="));
}
