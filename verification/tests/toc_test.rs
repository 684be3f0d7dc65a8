use rust_epub::epub::EpubVersion::{V20, V30};
use rust_epub::toc::{TocElement, TocNav};

#[test]
fn encode_ncx_file() {
    let mut nav = TocNav::new(String::from("梦回大明春"), String::from("zh"));

    nav.add_metadata(String::from("dtb:uid"), String::from("easypub-8a83e708"));
    nav.add_metadata(String::from("dtb:depth"), String::from("2"));

    let el1 = TocElement::new(String::from("Text/cover.xhtml"), String::from("封面"));
    let mut el2 = TocElement::new(
        String::from("Text/Chapter0002.xhtml"),
        String::from("第一卷 蛮家子"),
    );
    el2.add_child(TocElement::new(
        String::from("Text/Chapter0003.xhtml"),
        String::from("第001章 工程狗是什么品种？"),
    ));
    el2.add_child(TocElement::new(
        String::from("Text/Chapter0004.xhtml"),
        String::from("第002章 土匪式拜师"),
    ));

    nav.add_element(el1);
    nav.add_element(el2);

    let ret = nav.encode_file(V20);
    assert!(ret.is_ok());
    println!("{}", ret.unwrap());
}

#[test]
fn encode_nav_file() {
    let mut nav = TocNav::new(String::from("梦回大明春"), String::from("zh"));

    nav.add_metadata(String::from("dtb:uid"), String::from("easypub-8a83e708"));
    nav.add_metadata(String::from("dtb:depth"), String::from("2"));

    let el1 = TocElement::new(String::from("Text/cover.xhtml"), String::from("封面"));
    let mut el2 = TocElement::new(
        String::from("Text/Chapter0002.xhtml"),
        String::from("第一卷 蛮家子"),
    );
    el2.add_child(TocElement::new(
        String::from("Text/Chapter0003.xhtml"),
        String::from("第001章 工程狗是什么品种？"),
    ));
    el2.add_child(TocElement::new(
        String::from("Text/Chapter0004.xhtml"),
        String::from("第002章 土匪式拜师"),
    ));

    nav.add_element(el1);
    nav.add_element(el2);

    let ret = nav.encode_file(V30);

    assert!(ret.is_ok());
    println!("{}", ret.unwrap());
}

#[test]
fn ncx_assigns_preorder_numbers() {
    // one root with one child: traversal orders 0 and 1
    let mut nav = TocNav::new(String::from("t"), String::from("en"));
    let mut root = TocElement::new(String::from("xhtml/section_1.xhtml"), String::from("S1"));
    root.add_child(TocElement::new(
        String::from("xhtml/section_2.xhtml"),
        String::from("S2"),
    ));
    nav.add_element(root);
    let out = nav.encode_file(V20).unwrap();
    assert!(out.contains("playOrder=\"0\""));
    assert!(out.contains("playOrder=\"1\""));
    assert!(out.contains("id=\"navPoint-0\""));
    assert!(out.contains("id=\"navPoint-1\""));
}

#[test]
fn nav_nests_list_items() {
    // dialect B: the child appears as a list item nested inside its parent's
    let mut nav = TocNav::new(String::from("t"), String::from("en"));
    let mut root = TocElement::new(String::from("xhtml/section_1.xhtml"), String::from("S1"));
    root.add_child(TocElement::new(
        String::from("xhtml/section_2.xhtml"),
        String::from("S2"),
    ));
    nav.add_element(root);
    let out = nav.encode_file(V30).unwrap();
    assert!(out.contains(
        "<li><a href=\"xhtml/section_1.xhtml\">S1</a><ol><li><a href=\"xhtml/section_2.xhtml\">S2</a></li></ol></li>"
    ));
}

#[test]
fn dialects_agree_on_order_and_nesting() {
    // both dialects list the links in the same order, with the child nested
    let mut nav = TocNav::new(String::from("t"), String::from("en"));
    let mut root = TocElement::new(String::from("a.xhtml"), String::from("A"));
    root.add_child(TocElement::new(String::from("b.xhtml"), String::from("B")));
    nav.add_element(root);
    nav.add_element(TocElement::new(String::from("c.xhtml"), String::from("C")));
    let ncx = nav.encode_file(V20).unwrap();
    let html = nav.encode_file(V30).unwrap();
    for out in [&ncx, &html] {
        let pa = out.find("a.xhtml").unwrap();
        let pb = out.find("b.xhtml").unwrap();
        let pc = out.find("c.xhtml").unwrap();
        assert!(pa < pb && pb < pc);
    }
    // the nested child closes inside its parent in the list dialect
    assert!(html.contains("<ol><li><a href=\"b.xhtml\">B</a></li></ol></li>"));
    // and is numbered directly after its parent in the index dialect
    assert!(ncx.contains("playOrder=\"1\""));
}

#[test]
fn add_child_renumbers_levels() {
    let mut parent = TocElement::new(String::from("p.xhtml"), String::from("P"));
    parent.level = 5;
    let child = TocElement::new(String::from("c.xhtml"), String::from("C"));
    assert_eq!(child.level, 1);
    parent.add_child(child);
    assert_eq!(parent.childs[0].level, 6);

    // a child already deeper than the parent keeps its level
    let deep = TocElement {
        level: 9,
        url: String::from("d.xhtml"),
        title: String::from("D"),
        childs: Vec::new(),
    };
    parent.add_child(deep);
    assert_eq!(parent.childs[1].level, 9);
}

#[test]
fn ncx_exact_document() {
    let mut nav = TocNav::new(String::from("T"), String::from("en"));
    nav.add_element(TocElement::new(String::from("a.xhtml"), String::from("A")));
    let out = nav.encode_file(V20).unwrap();
    let mut expected = String::new();
    expected.push_str("<?xml version=\"1.0\" encoding=\"UTF-8\"?>\n");
    expected.push_str("<!DOCTYPE ncx PUBLIC \"-//NISO//DTD ncx 2005-1//EN\" \"http://www.daisy.org/z3986/2005/ncx-2005-1.dtd\">");
    expected.push_str("<ncx xmlns=\"http://www.daisy.org/z3986/2005/ncx/\" version=\"2005-1\" xml:lang=\"en\">");
    expected.push_str("<head></head>");
    expected.push_str("<docTitle><text>T</text></docTitle>");
    expected.push_str("<navMap>");
    expected.push_str("<navPoint id=\"navPoint-0\" playOrder=\"0\">");
    expected.push_str("<navLabel><text>A</text></navLabel>");
    expected.push_str("<content src=\"a.xhtml\"/>");
    expected.push_str("</navPoint>");
    expected.push_str("</navMap></ncx>");
    assert_eq!(out, expected);
}

#[test]
fn nav_exact_document() {
    let mut nav = TocNav::new(String::from("T"), String::from("en"));
    nav.add_element(TocElement::new(String::from("a.xhtml"), String::from("A")));
    let out = nav.encode_file(V30).unwrap();
    let mut expected = String::new();
    expected.push_str("<?xml version=\"1.0\" encoding=\"UTF-8\"?>\n<!DOCTYPE html>");
    expected.push_str(
        "<html xmlns=\"http://www.w3.org/1999/xhtml\" xmlns:epub=\"http://www.idpf.org/2007/ops\">",
    );
    expected.push_str("<head><title>T</title></head>");
    expected.push_str("<body><nav epub:type=\"toc\" id=\"toc\"><h1>T</h1>");
    expected.push_str("<ol><li><a href=\"a.xhtml\">A</a></li></ol>");
    expected.push_str("</nav></body></html>");
    assert_eq!(out, expected);
}

#[test]
fn traverse_visits_until_declined() {
    let mut root = TocElement::new(String::from("a.xhtml"), String::from("A"));
    root.add_child(TocElement::new(String::from("b.xhtml"), String::from("B")));
    root.add_child(TocElement::new(String::from("c.xhtml"), String::from("C")));
    assert!(root.traverse(&|_e: &TocElement| true));
    assert!(!root.traverse(&|e: &TocElement| e.url != "b.xhtml"));
}
