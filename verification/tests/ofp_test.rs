use chrono::{Datelike, Timelike};
use rust_epub::datetime::EpubDateTime;
use rust_epub::epub::EpubVersion;
use rust_epub::opf::{BindingItem, GuideReference, ManifestItem, Metadata, SpineItemRef};


fn now_datetime() -> EpubDateTime {
    let now = chrono::Utc::now();
    EpubDateTime::new(
        now.year() as u64,
        now.month() as u64,
        now.day() as u64,
        now.hour() as u64,
        now.minute() as u64,
        now.second() as u64,
    )
}

#[test]
fn test_encode_v2_xml() {
    let mut opf = rust_epub::opf::Package::new();
    let mut metadata = Metadata::default();
    metadata.title = String::from("北宋小厨师");
    metadata.set_date_published(now_datetime());
    metadata.set_category(String::from("历史穿越"));
    metadata.set_creator(String::from("南希北庆"));
    metadata.set_description(String::from("身为一家超五星级酒店首席大厨的李奇，因为喝了点小酒，竟然奇迹般的穿越到了北宋末年。在北宋末年那个风雨飘摇的年代，身为现代人的他究竟会带来那些奇迹呢？"));
    metadata.set_publisher(String::from("掌上书苑"));
    metadata.set_format(String::from("application/epub+zip"));

    opf.set_metadata(metadata);

    let mut manifest = ManifestItem::new(
        String::from("stylesheet"),
        String::from("styles.css"),
        String::from("text/css"),
    );
    manifest.id = String::from("content");
    manifest.href = String::from("text.xhtml");
    manifest.media_type = String::from("application/xhtml+xml");

    opf.add_manifest(manifest);
    opf.add_manifest(ManifestItem::new(
        String::from("stylesheet"),
        String::from("styles.css"),
        String::from("text/css"),
    ));

    opf.add_spine(SpineItemRef::new(String::from("cover.xhtml")));
    opf.add_spine(SpineItemRef::new(String::from("text.xhtml")));
    opf.add_spine(SpineItemRef::new(String::from("cover.xhtml")));

    opf.add_guide(GuideReference::new(
        String::from("Cover"),
        String::from("cover"),
        String::from("cover.xhtml"),
    ));

    opf.add_binding(BindingItem::new(
        String::from("application/x-dtbncx+xml"),
        String::from("toc.ncx"),
    ));

    let ret = opf.encode_xml(EpubVersion::V20);
    println!("{}", ret.unwrap_or_default());
}

#[test]
fn test_encode_v3_xml() {
    let mut opf = rust_epub::opf::Package::new();
    let mut metadata = Metadata::default();
    metadata.title = String::from("北宋小厨师");
    metadata.set_date_published(now_datetime());
    metadata.set_category(String::from("历史穿越"));
    metadata.set_creator(String::from("南希北庆"));
    metadata.set_description(String::from("身为一家超五星级酒店首席大厨的李奇，因为喝了点小酒，竟然奇迹般的穿越到了北宋末年。在北宋末年那个风雨飘摇的年代，身为现代人的他究竟会带来那些奇迹呢？"));
    metadata.set_publisher(String::from("掌上书苑"));
    metadata.set_format(String::from("application/epub+zip"));

    opf.set_metadata(metadata);

    let mut manifest = ManifestItem::new(
        String::from("stylesheet"),
        String::from("styles.css"),
        String::from("text/css"),
    );
    manifest.id = String::from("content");
    manifest.href = String::from("text.xhtml");
    manifest.media_type = String::from(
        "
        application/xhtml+xml",
    );
    opf.add_manifest(manifest);
    opf.add_spine(SpineItemRef::new(String::from("cover.xhtml")));
    opf.add_spine(SpineItemRef::new(String::from("text.xhtml")));
    opf.add_spine(SpineItemRef::new(String::from("cover.xhtml")));
    opf.add_guide(GuideReference::new(
        String::from("Cover"),
        String::from("cover"),
        String::from("cover.xhtml"),
    ));

    opf.add_binding(BindingItem::new(
        String::from("application/x-dtbncx+xml"),
        String::from("toc.ncx"),
    ));

    let ret = opf.encode_xml(EpubVersion::V30);
    println!("{}", ret.unwrap_or_default());
}

#[test]
fn v2_exact_small_package() {
    let mut opf = rust_epub::opf::Package::new();
    let mut metadata = Metadata::default();
    metadata.set_title(String::from("T&C"));
    metadata.set_creator(String::from("A"));
    opf.set_metadata(metadata);
    opf.add_manifest(ManifestItem::new(
        String::from("c1"),
        String::from("text.xhtml"),
        String::from("application/xhtml+xml"),
    ));
    opf.add_spine(SpineItemRef::new(String::from("c1")));
    let out = opf.encode_xml(EpubVersion::V20).unwrap();
    let mut expected = String::new();
    expected.push_str("<package version=\"v2.0\" xmlns:opf=\"http://www.idpf.org/2007/opf\">");
    expected.push_str("<metadata>");
    expected.push_str("<dc:creator>A</dc:creator>");
    expected.push_str("<dc:title>T&amp;C</dc:title>");
    expected.push_str("<dc:language>zh</dc:language>");
    expected.push_str("<meta name=\"generator\">Rust EPUB library</meta>");
    expected.push_str("<meta name=\"generator-name\">Table Of Contents</meta>");
    expected.push_str("</metadata>");
    expected.push_str("<manifest>");
    expected.push_str("<item id=\"c1\" href=\"text.xhtml\" media-type=\"application/xhtml+xml\"/>");
    expected.push_str("</manifest>");
    expected.push_str("<spine toc=\"ncx\">");
    expected.push_str("<itemref idref=\"c1\"/>");
    expected.push_str("</spine>");
    expected.push_str("</package>");
    assert_eq!(out, expected);
}

#[test]
fn v3_exact_small_package() {
    let mut opf = rust_epub::opf::Package::new();
    let mut metadata = Metadata::default();
    metadata.set_title(String::from("T&C"));
    metadata.set_creator(String::from("A"));
    opf.set_metadata(metadata);
    opf.add_manifest(ManifestItem::new(
        String::from("c1"),
        String::from("text.xhtml"),
        String::from("application/xhtml+xml"),
    ));
    opf.add_spine(SpineItemRef::new(String::from("c1")));
    let out = opf.encode_xml(EpubVersion::V30).unwrap();
    let mut expected = String::new();
    expected.push_str("<package version=\"v3.0\" xmlns:opf=\"http://www.idpf.org/2007/opf\"");
    expected.push_str(" xmlns:dc=\"http://purl.org/dc/elements/1.1/\"");
    expected.push_str(" xmlns:xsi=\"http://www.w3.org/2001/XMLSchema-instance\">");
    expected.push_str("<metadata>");
    expected.push_str("<dc:creator>A</dc:creator>");
    expected.push_str("<dc:title>T&amp;C</dc:title>");
    expected.push_str("<dc:language>zh</dc:language>");
    expected.push_str("<meta property=\"generator\">Rust EPUB library</meta>");
    expected.push_str("<meta property=\"generator-name\">Table Of Contents</meta>");
    expected.push_str("</metadata>");
    expected.push_str("<manifest>");
    expected.push_str("<item id=\"c1\" href=\"text.xhtml\" media-type=\"application/xhtml+xml\"/>");
    expected.push_str("</manifest>");
    expected.push_str("<spine toc=\"ncx\">");
    expected.push_str("<itemref idref=\"c1\"/>");
    expected.push_str("</spine>");
    expected.push_str("</package>");
    assert_eq!(out, expected);
}

#[test]
fn v3_uses_property_entries() {
    let mut opf = rust_epub::opf::Package::new();
    let mut metadata = Metadata::default();
    metadata.set_title(String::from("t"));
    let mut item = rust_epub::opf::MetaItem::new(String::new());
    item.property = String::from("dcterms:source");
    item.data = String::from("shelf");
    metadata.add_meta(item);
    opf.set_metadata(metadata);
    let v3 = opf.encode_xml(EpubVersion::V30).unwrap();
    assert!(v3.contains("<meta property=\"dcterms:source\">shelf</meta>"));
    let v2 = opf.encode_xml(EpubVersion::V20).unwrap();
    assert!(v2.contains("name=\"generator\""));
}

#[test]
fn date_formatting_is_zero_padded() {
    let d = EpubDateTime::new(987, 3, 5, 7, 8, 9);
    assert_eq!(d.format(), "0987-03-05T07:08:09 +0000");
    let mut metadata = Metadata::default();
    metadata.set_title(String::from("t"));
    metadata.set_date_published(d);
    let mut opf = rust_epub::opf::Package::new();
    opf.set_metadata(metadata);
    let out = opf.encode_xml(EpubVersion::V20).unwrap();
    assert!(out.contains("<dc:date>0987-03-05T07:08:09 +0000</dc:date>"));
}

#[test]
fn unpopulated_fields_are_omitted() {
    let mut metadata = Metadata::default();
    metadata.set_title(String::from("t"));
    let mut opf = rust_epub::opf::Package::new();
    opf.set_metadata(metadata);
    let out = opf.encode_xml(EpubVersion::V20).unwrap();
    assert!(!out.contains("dc:subject"));
    assert!(!out.contains("dc:description"));
    assert!(!out.contains("dc:creator"));
    assert!(!out.contains("dc:identifier"));
    assert!(!out.contains("<spine"));
    assert!(!out.contains("<guide>"));
}

#[test]
fn date_formatting_keeps_large_years() {
    let d = EpubDateTime::new(12345, 1, 2, 3, 4, 5);
    assert_eq!(d.format(), "12345-01-02T03:04:05 +0000");
}
