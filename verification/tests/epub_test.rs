use rust_epub::epub::{EpubBuilder, EpubVersion};
use rust_epub::{Error, SourceRef};

fn existing(path: &str) -> SourceRef {
    SourceRef::new(String::from(path), true)
}

#[test]
fn test_add_image() {
    let mut epub = EpubBuilder::new(String::from("大语言模型：辩论"), EpubVersion::V20);
    let source = "tests/testdata/cover.jpg";

    let image_1 = epub.add_image(existing(source), None);
    println!("{:?}", image_1);
    assert!(image_1.is_ok());
    assert_eq!(image_1.unwrap(), "../images/cover.jpg");

    let ret = epub.add_image(existing(source), None);

    assert!(ret.is_ok());
    let image_str_2 = ret.unwrap();
    assert_eq!(image_str_2, "../images/image_2.jpg");

    println!("{:?}", image_str_2);
}

#[test]
fn test_add_video() {
    let mut epub = EpubBuilder::new(String::from("大语言模型：辩论"), EpubVersion::V20);
    let source = "tests/testdata/video.mp4";

    let video_1 = epub.add_video(existing(source), None);
    println!("{:?}", video_1);
    assert!(video_1.is_ok());

    let video_2 = epub.add_video(existing(source), None);
    println!("{:?}", video_2);
    assert!(video_2.is_ok());
}

#[test]
fn test_add_audio() {
    let mut epub = EpubBuilder::new(String::from("大语言模型：辩论"), EpubVersion::V20);
    let source = "tests/testdata/audio.mp4";

    let audio_1 = epub.add_audio(existing(source), None);
    println!("{:?}", audio_1);
    assert!(audio_1.is_ok());

    let audio_2 = epub.add_audio(existing(source), None);
    println!("{:?}", audio_2);
    assert!(audio_2.is_ok());
}

#[test]
fn test_add_section() {
    let mut epub = EpubBuilder::new(String::from("大语言模型：辩论"), EpubVersion::V20);
    let css = existing("tests/testdata/style.css");

    let ret = epub.add_section(String::from("测试章节"), String::from("测试章节内容"), None, None);

    println!("{:?}", ret);
    assert!(ret.is_ok());
    let parent_filename = ret.unwrap();
    assert_eq!(parent_filename, "section_1.xhtml");

    let sub_ret = epub.add_sub_section(
        Some(parent_filename),
        String::from("测试章节2"),
        String::from("测试章节内容2"),
        None,
        Some(css),
    );
    println!("{:?}", sub_ret);
    assert!(sub_ret.is_ok());
}

#[test]
fn test_set_cover() {
    let mut epub = EpubBuilder::new(String::from("大语言模型：辩论"), EpubVersion::V20);
    let ret = epub.set_cover(existing("tests/testdata/cover.jpg"), None, true);
    println!("{:?}", ret);
    assert!(ret.is_ok());
}

#[test]
fn test_encode_toc_xml() {
    let mut epub = EpubBuilder::new(String::from("大语言模型：辩论"), EpubVersion::V20);
    let css = existing("tests/testdata/style.css");

    let section = epub.add_section(String::from("测试章节"), String::from("测试章节内容"), None, None);
    let parent_filename = section.unwrap();
    assert_eq!(parent_filename, "section_1.xhtml");

    let sub_section = epub.add_sub_section(
        Some(parent_filename),
        String::from("测试章节2"),
        String::from("测试章节内容2"),
        None,
        Some(css.clone()),
    );
    println!("{:?}", sub_section);
    let sub_parent_filename = sub_section.unwrap();

    let sub_sub_section = epub.add_sub_section(
        Some(sub_parent_filename),
        String::from("测试章节3"),
        String::from("测试章节内容3"),
        None,
        Some(css),
    );
    println!("{:?}", sub_sub_section);
    assert!(sub_sub_section.is_ok());

    let ret = epub.encode_toc_xml();
    println!("{:?}", ret);
    assert!(ret.is_ok());
}

#[test]
fn auto_names_follow_insertion_count() {
    // automatically assigned filenames are pairwise distinct and follow
    // section_<N>.xhtml with N reflecting the insertion count
    let mut epub = EpubBuilder::new(String::from("t"), EpubVersion::V20);
    let mut names = Vec::new();
    for _ in 0..5 {
        let name = epub
            .add_section(String::from("b"), String::from("t"), None, None)
            .unwrap();
        names.push(name);
    }
    assert_eq!(
        names,
        vec![
            "section_1.xhtml",
            "section_2.xhtml",
            "section_3.xhtml",
            "section_4.xhtml",
            "section_5.xhtml",
        ]
    );
    for i in 0..names.len() {
        for j in 0..names.len() {
            if i != j {
                assert_ne!(names[i], names[j]);
            }
        }
    }
}

#[test]
fn auto_name_skips_taken_candidate() {
    let mut epub = EpubBuilder::new(String::from("t"), EpubVersion::V20);
    // take the name the second automatic section would otherwise get
    let first = epub
        .add_section(
            String::from("b"),
            String::from("t"),
            Some(String::from("section_2")),
            None,
        )
        .unwrap();
    assert_eq!(first, "section_2.xhtml");
    let second = epub
        .add_section(String::from("b"), String::from("t"), None, None)
        .unwrap();
    // the candidate section_2.xhtml is taken, so the next free one is used
    assert_eq!(second, "section_3.xhtml");
}

#[test]
fn duplicate_explicit_filename_is_rejected() {
    let mut epub = EpubBuilder::new(String::from("t"), EpubVersion::V20);
    epub.add_section(
        String::from("b"),
        String::from("t"),
        Some(String::from("one.xhtml")),
        None,
    )
    .unwrap();
    let before = epub.filenames.len();
    let ret = epub.add_section(
        String::from("b"),
        String::from("t"),
        Some(String::from("one")),
        None,
    );
    assert!(matches!(ret, Err(Error::FilenameExistedErr(_))));
    assert_eq!(epub.filenames.len(), before);
}

#[test]
fn unknown_parent_is_rejected_and_tree_unchanged() {
    // attaching under a nonexistent parent fails and leaves the tree as it was
    let mut epub = EpubBuilder::new(String::from("t"), EpubVersion::V20);
    epub.add_section(String::from("b"), String::from("t"), None, None)
        .unwrap();
    let sections_before = epub.sections.len();
    let filenames_before = epub.filenames.clone();
    let ret = epub.add_sub_section(
        Some(String::from("missing.xhtml")),
        String::from("b"),
        String::from("t"),
        None,
        None,
    );
    assert!(matches!(ret, Err(Error::ParentExistedErr(_))));
    assert_eq!(epub.sections.len(), sections_before);
    assert_eq!(epub.filenames, filenames_before);
}

#[test]
fn missing_source_is_rejected_and_registry_untouched() {
    // a source that fails the existence check is rejected and the image
    // class keeps its size
    let mut epub = EpubBuilder::new(String::from("t"), EpubVersion::V20);
    epub.add_image(existing("a.jpg"), None).unwrap();
    let before = epub.images.entries.len();
    let ret = epub.add_image(SourceRef::new(String::from("missing.jpg"), false), None);
    assert!(matches!(ret, Err(Error::FileNotFoundErr(_))));
    assert_eq!(epub.images.entries.len(), before);
}

#[test]
fn duplicate_unnamed_asset_gets_numbered_variant() {
    // registering the same unnamed asset twice never yields two entries
    // with one name
    let mut epub = EpubBuilder::new(String::from("t"), EpubVersion::V20);
    let p1 = epub.add_image(existing("pics/cover.jpg"), None).unwrap();
    let p2 = epub.add_image(existing("pics/cover.jpg"), None).unwrap();
    assert_eq!(p1, "../images/cover.jpg");
    assert_eq!(p2, "../images/image_2.jpg");
    assert_ne!(epub.images.entries[0].0, epub.images.entries[1].0);
    assert_eq!(epub.images.entries.len(), 2);
}

#[test]
fn duplicate_explicit_media_name_is_rejected() {
    let mut epub = EpubBuilder::new(String::from("t"), EpubVersion::V20);
    epub.add_image(existing("a.jpg"), Some(String::from("pic.jpg")))
        .unwrap();
    let ret = epub.add_image(existing("b.jpg"), Some(String::from("pic.jpg")));
    assert!(matches!(ret, Err(Error::FilenameUsedErr(_))));
    assert_eq!(epub.images.entries.len(), 1);
}

#[test]
fn unknown_media_type_is_rejected() {
    let mut epub = EpubBuilder::new(String::from("t"), EpubVersion::V20);
    let ret = epub.set_cover(existing("cover.zzz"), None, false);
    assert!(matches!(ret, Err(Error::MediaError(_))));
    assert_eq!(epub.sections.len(), 0);
}

#[test]
fn set_cover_twice_leaves_single_cover() {
    // the second cover fully replaces the first: one cover node, one cover
    // image, no orphaned stylesheet entries
    let mut epub = EpubBuilder::new(String::from("t"), EpubVersion::V20);
    let css = existing("styles/cover.css");
    let r1 = epub.set_cover(existing("pics/one.jpg"), Some(css.clone()), true);
    assert!(r1.is_ok());
    let r2 = epub.set_cover(existing("pics/two.jpg"), Some(css), true);
    assert!(r2.is_ok());

    let cover_nodes = epub
        .sections
        .iter()
        .filter(|s| s.filename == "cover.xhtml")
        .count();
    assert_eq!(cover_nodes, 1);
    assert_eq!(epub.images.entries.len(), 1);
    assert_eq!(epub.images.entries[0].1, "pics/two.jpg");
    assert_eq!(epub.stylesheet.entries.len(), 1);
    let names: Vec<&String> = epub.filenames.iter().collect();
    assert_eq!(names.iter().filter(|n| ***n == "cover.xhtml").count(), 1);
}

#[test]
fn toc_encoding_shows_sections_in_order() {
    let mut epub = EpubBuilder::new(String::from("book"), EpubVersion::V20);
    let s1 = epub
        .add_section(String::from("b1"), String::from("S1"), None, None)
        .unwrap();
    epub.add_sub_section(
        Some(s1),
        String::from("b2"),
        String::from("S2"),
        None,
        None,
    )
    .unwrap();
    let out = epub.encode_toc_xml().unwrap();
    assert!(out.contains("playOrder=\"0\""));
    assert!(out.contains("playOrder=\"1\""));
    assert!(out.contains("src=\"xhtml/section_1.xhtml\""));
    assert!(out.contains("src=\"xhtml/section_2.xhtml\""));
    assert!(out.contains("<meta name=\"dtb:depth\" content=\"2\"/>"));
}

#[test]
fn toc_encoding_nests_in_list_dialect() {
    let mut epub = EpubBuilder::new(String::from("book"), EpubVersion::V30);
    let s1 = epub
        .add_section(String::from("b1"), String::from("S1"), None, None)
        .unwrap();
    epub.add_sub_section(
        Some(s1),
        String::from("b2"),
        String::from("S2"),
        None,
        None,
    )
    .unwrap();
    let out = epub.encode_toc_xml().unwrap();
    assert!(out.contains(
        "<li><a href=\"xhtml/section_1.xhtml\">S1</a><ol><li><a href=\"xhtml/section_2.xhtml\">S2</a></li></ol></li>"
    ));
}

#[test]
fn repeat_named_registration_is_idempotent() {
    // the same asset registered twice under the same explicit name yields
    // the same internal path and no second entry
    let mut epub = EpubBuilder::new(String::from("t"), EpubVersion::V20);
    let p1 = epub
        .add_image(existing("pics/a.jpg"), Some(String::from("pic.jpg")))
        .unwrap();
    let p2 = epub
        .add_image(existing("pics/a.jpg"), Some(String::from("pic.jpg")))
        .unwrap();
    assert_eq!(p1, "../images/pic.jpg");
    assert_eq!(p1, p2);
    assert_eq!(epub.images.entries.len(), 1);
}

#[test]
fn set_subject_keeps_title() {
    let mut epub = EpubBuilder::new(String::from("title"), EpubVersion::V20);
    epub.set_subject(String::from("sub"));
    assert_eq!(epub.title, "title");
    assert_eq!(epub.subject, Some(String::from("sub")));
}
