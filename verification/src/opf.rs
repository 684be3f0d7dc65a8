//! The package document: book-level bibliographic metadata, the manifest
//! derived from the resource registry, the reading order, the guide and
//! the bindings, with the verified encoder for the older schema dialect.

use crate::datetime::{datetime_fmt_spec, EpubDateTime};
use crate::epub::EpubVersion;
use crate::strutil::{join_comma, join_spec, views_of};
use crate::xmlesc::{append_attr, append_escaped, attr_spec, escape_spec};
use crate::Error;
use vstd::prelude::*;

verus! {

/// A free-form metadata entry: either a name/content pair, a
/// property/value pair, or both, as the caller fills it.
#[derive(Debug, Clone)]
pub struct MetaItem {
    pub refines: String,
    pub property: String,
    pub scheme: String,
    pub id: String,
    pub data: String,
    pub name: String,
    pub content: String,
}

impl MetaItem {
    /// A fresh entry holding only `content`.
    pub fn new(content: String) -> (r: MetaItem)
        ensures
            r.refines@ == Seq::<char>::empty(),
            r.property@ == Seq::<char>::empty(),
            r.scheme@ == Seq::<char>::empty(),
            r.id@ == Seq::<char>::empty(),
            r.data@ == Seq::<char>::empty(),
            r.name@ == Seq::<char>::empty(),
            r.content@ == content@,
    {
        MetaItem {
            refines: String::new(),
            property: String::new(),
            scheme: String::new(),
            id: String::new(),
            data: String::new(),
            name: String::new(),
            content,
        }
    }
}

impl Default for MetaItem {
    fn default() -> (r: MetaItem)
        ensures
            r.refines@ == Seq::<char>::empty(),
            r.property@ == Seq::<char>::empty(),
            r.scheme@ == Seq::<char>::empty(),
            r.id@ == Seq::<char>::empty(),
            r.data@ == Seq::<char>::empty(),
            r.name@ == Seq::<char>::empty(),
            r.content@ == Seq::<char>::empty(),
    {
        MetaItem::new(String::new())
    }
}

/// The manifest: one entry per registered resource.
#[derive(Debug, Clone)]
pub struct Manifest {
    pub items: Vec<ManifestItem>,
}

/// One manifest entry.
#[derive(Debug, Clone)]
pub struct ManifestItem {
    pub id: String,
    pub href: String,
    pub media_type: String,
    pub properties: String,
}

impl ManifestItem {
    /// A fresh manifest entry.
    pub fn new(id: String, href: String, media_type: String) -> (r: ManifestItem)
        ensures
            r.id@ == id@,
            r.href@ == href@,
            r.media_type@ == media_type@,
            r.properties@ == Seq::<char>::empty(),
    {
        ManifestItem { id, href, media_type, properties: String::new() }
    }
}

impl Default for ManifestItem {
    fn default() -> (r: ManifestItem)
        ensures
            r.id@ == Seq::<char>::empty(),
            r.href@ == Seq::<char>::empty(),
            r.media_type@ == Seq::<char>::empty(),
            r.properties@ == Seq::<char>::empty(),
    {
        ManifestItem::new(String::new(), String::new(), String::new())
    }
}

/// The package identifier.
#[derive(Debug, Clone)]
pub struct Identifier {
    pub id: String,
    pub scheme: String,
    pub text: String,
}

/// One reading-order reference.
#[derive(Debug, Clone)]
pub struct SpineItemRef {
    pub idref: String,
}

impl SpineItemRef {
    /// A fresh reading-order reference.
    pub fn new(idref: String) -> (r: SpineItemRef)
        ensures
            r.idref@ == idref@,
    {
        SpineItemRef { idref }
    }
}

impl Default for SpineItemRef {
    fn default() -> (r: SpineItemRef)
        ensures
            r.idref@ == Seq::<char>::empty(),
    {
        SpineItemRef { idref: String::new() }
    }
}

/// One guide reference.
#[derive(Debug, Clone)]
pub struct GuideReference {
    pub ref_type: String,
    pub title: String,
    pub href: String,
}

impl GuideReference {
    /// A fresh guide reference.
    pub fn new(ref_type: String, title: String, href: String) -> (r: GuideReference)
        ensures
            r.ref_type@ == ref_type@,
            r.title@ == title@,
            r.href@ == href@,
    {
        GuideReference { ref_type, title, href }
    }
}

impl Default for GuideReference {
    fn default() -> (r: GuideReference)
        ensures
            r.ref_type@ == Seq::<char>::empty(),
            r.title@ == Seq::<char>::empty(),
            r.href@ == Seq::<char>::empty(),
    {
        GuideReference { ref_type: String::new(), title: String::new(), href: String::new() }
    }
}

/// One binding entry.
#[derive(Debug, Clone)]
pub struct BindingItem {
    pub media_type: String,
    pub href: String,
}

impl BindingItem {
    /// A fresh binding entry.
    pub fn new(media_type: String, href: String) -> (r: BindingItem)
        ensures
            r.media_type@ == media_type@,
            r.href@ == href@,
    {
        BindingItem { media_type, href }
    }
}

/// The bibliographic record of the package.
#[derive(Debug, Clone)]
pub struct Metadata {
    pub title: String,
    pub creator: Vec<String>,
    pub subject: Vec<String>,
    pub description: Option<String>,
    pub category: Option<String>,
    pub publisher: Option<String>,
    pub contributor: Option<String>,
    pub format: Option<String>,
    pub identifier: Option<Identifier>,
    pub source: Option<String>,
    pub language: String,
    pub relation: Option<String>,
    pub coverage: Option<String>,
    pub rights: Option<String>,
    pub cover: Option<String>,
    pub date_published: Option<EpubDateTime>,
    pub date_modified: Option<EpubDateTime>,
    pub generator: String,
    pub generator_name: String,
    pub meta: Vec<MetaItem>,
}

impl Default for Metadata {
    fn default() -> (r: Metadata)
        ensures
            r.title@ == Seq::<char>::empty(),
            r.creator@ == Seq::<String>::empty(),
            r.subject@ == Seq::<String>::empty(),
            r.description is None,
            r.category is None,
            r.publisher is None,
            r.contributor is None,
            r.format is None,
            r.identifier is None,
            r.source is None,
            r.language@ == "zh"@,
            r.relation is None,
            r.coverage is None,
            r.rights is None,
            r.cover is None,
            r.date_published is None,
            r.date_modified is None,
            r.generator@ == "Rust EPUB library"@,
            r.generator_name@ == "Table Of Contents"@,
            r.meta@ == Seq::<MetaItem>::empty(),
    {
        Metadata {
            title: String::new(),
            creator: Vec::new(),
            subject: Vec::new(),
            description: Option::None,
            category: Option::None,
            publisher: Option::None,
            contributor: Option::None,
            format: Option::None,
            identifier: Option::None,
            source: Option::None,
            language: String::from_str("zh"),
            relation: Option::None,
            coverage: Option::None,
            rights: Option::None,
            cover: Option::None,
            date_published: Option::None,
            date_modified: Option::None,
            generator: String::from_str("Rust EPUB library"),
            generator_name: String::from_str("Table Of Contents"),
            meta: Vec::new(),
        }
    }
}

impl Metadata {
    /// Append a free-form metadata entry.
    pub fn add_meta(&mut self, meta_item: MetaItem)
        ensures
            final(self).meta@ == old(self).meta@.push(meta_item),
            *final(self) == (Metadata { meta: final(self).meta, ..*old(self) }),
    {
        self.meta.push(meta_item);
    }

    /// Set the title.
    pub fn set_title(&mut self, title: String)
        ensures
            *final(self) == (Metadata { title, ..*old(self) }),
    {
        self.title = title;
    }

    /// Append a creator.
    pub fn set_creator(&mut self, creator: String)
        ensures
            final(self).creator@ == old(self).creator@.push(creator),
            *final(self) == (Metadata { creator: final(self).creator, ..*old(self) }),
    {
        self.creator.push(creator);
    }

    /// Append a subject.
    pub fn set_subject(&mut self, subject: String)
        ensures
            final(self).subject@ == old(self).subject@.push(subject),
            *final(self) == (Metadata { subject: final(self).subject, ..*old(self) }),
    {
        self.subject.push(subject);
    }

    /// Set the description.
    pub fn set_description(&mut self, description: String)
        ensures
            *final(self) == (Metadata { description: Option::Some(description), ..*old(self) }),
    {
        self.description = Option::Some(description);
    }

    /// Set the category.
    pub fn set_category(&mut self, category: String)
        ensures
            *final(self) == (Metadata { category: Option::Some(category), ..*old(self) }),
    {
        self.category = Option::Some(category);
    }

    /// Set the publisher.
    pub fn set_publisher(&mut self, publisher: String)
        ensures
            *final(self) == (Metadata { publisher: Option::Some(publisher), ..*old(self) }),
    {
        self.publisher = Option::Some(publisher);
    }

    /// Set the contributor.
    pub fn set_contributor(&mut self, contributor: String)
        ensures
            *final(self) == (Metadata { contributor: Option::Some(contributor), ..*old(self) }),
    {
        self.contributor = Option::Some(contributor);
    }

    /// Set the format.
    pub fn set_format(&mut self, format: String)
        ensures
            *final(self) == (Metadata { format: Option::Some(format), ..*old(self) }),
    {
        self.format = Option::Some(format);
    }

    /// Set the identifier.
    pub fn set_identifier(&mut self, identifier: Identifier)
        ensures
            *final(self) == (Metadata { identifier: Option::Some(identifier), ..*old(self) }),
    {
        self.identifier = Option::Some(identifier);
    }

    /// Set the source.
    pub fn set_source(&mut self, source: String)
        ensures
            *final(self) == (Metadata { source: Option::Some(source), ..*old(self) }),
    {
        self.source = Option::Some(source);
    }

    /// Set the language.
    pub fn set_language(&mut self, language: String)
        ensures
            *final(self) == (Metadata { language, ..*old(self) }),
    {
        self.language = language;
    }

    /// Set the relation.
    pub fn set_relation(&mut self, relation: String)
        ensures
            *final(self) == (Metadata { relation: Option::Some(relation), ..*old(self) }),
    {
        self.relation = Option::Some(relation);
    }

    /// Set the coverage.
    pub fn set_cover(&mut self, cover: String)
        ensures
            *final(self) == (Metadata { coverage: Option::Some(cover), ..*old(self) }),
    {
        self.coverage = Option::Some(cover);
    }

    /// Set the rights.
    pub fn set_rights(&mut self, rights: String)
        ensures
            *final(self) == (Metadata { rights: Option::Some(rights), ..*old(self) }),
    {
        self.rights = Option::Some(rights);
    }

    /// Set the publication date.
    pub fn set_date_published(&mut self, date_published: EpubDateTime)
        ensures
            *final(self) == (Metadata {
                date_published: Option::Some(date_published),
                ..*old(self)
            }),
    {
        self.date_published = Option::Some(date_published);
    }

    /// Set the modification date.
    pub fn set_date_modified(&mut self, date_modified: EpubDateTime)
        ensures
            *final(self) == (Metadata { date_modified: Option::Some(date_modified), ..*old(self) }),
    {
        self.date_modified = Option::Some(date_modified);
    }
}

/// The package document.
#[derive(Debug)]
pub struct Package {
    pub metadata: Metadata,
    pub manifest: Vec<ManifestItem>,
    pub spine: Vec<SpineItemRef>,
    pub guide: Vec<GuideReference>,
    pub bindings: Vec<BindingItem>,
}

/// One text element `<tag>escaped-value</tag>`.
pub open spec fn elem_spec(tag: Seq<char>, value: Seq<char>) -> Seq<char> {
    "<"@ + tag + ">"@ + escape_spec(value) + "</"@ + tag + ">"@
}

/// A text element when the value is present, nothing otherwise.
pub open spec fn opt_elem_spec(tag: Seq<char>, value: Option<Seq<char>>) -> Seq<char> {
    match value {
        Option::None => Seq::empty(),
        Option::Some(v) => elem_spec(tag, v),
    }
}

/// View of an optional string.
pub open spec fn opt_view(v: Option<String>) -> Option<Seq<char>> {
    match v {
        Option::None => Option::None,
        Option::Some(s) => Option::Some(s@),
    }
}

/// One free-form metadata element with optional `name` and `property`
/// attributes and an escaped text value.
pub open spec fn meta_elem_spec(
    name: Option<Seq<char>>,
    property: Option<Seq<char>>,
    text: Seq<char>,
) -> Seq<char> {
    "<meta"@ + (match name {
        Option::None => Seq::<char>::empty(),
        Option::Some(n) => attr_spec("name"@, n),
    }) + (match property {
        Option::None => Seq::<char>::empty(),
        Option::Some(p) => attr_spec("property"@, p),
    }) + ">"@ + escape_spec(text) + "</meta>"@
}

/// The free-form entries of the record, in order.
pub open spec fn user_metas_spec(ms: Seq<MetaItem>) -> Seq<char>
    decreases ms,
{
    if ms.len() == 0 {
        Seq::empty()
    } else {
        user_metas_spec(ms.drop_last()) + meta_elem_spec(
            Option::Some(ms.last().name@),
            Option::Some(ms.last().property@),
            ms.last().data@,
        )
    }
}

/// The markup of the identifier: left out when absent or when its text is
/// empty; otherwise one element with an optional id attribute and an
/// optional scheme element.
pub open spec fn identifier_spec(idf: Option<Identifier>) -> Seq<char> {
    match idf {
        Option::None => Seq::empty(),
        Option::Some(i) => {
            if i.text@.len() == 0 {
                Seq::empty()
            } else {
                "<dc:identifier"@ + (if i.id@.len() == 0 {
                    Seq::<char>::empty()
                } else {
                    attr_spec("id"@, i.id@)
                }) + ">"@ + (if i.scheme@.len() == 0 {
                    Seq::<char>::empty()
                } else {
                    "<opf:scheme>"@ + escape_spec(i.scheme@) + "</opf:scheme>"@
                }) + escape_spec(i.text@) + "</dc:identifier>"@
            }
        },
    }
}

/// The Dublin Core fields of the record, shared by both dialects:
/// multi-valued fields are joined with commas and every unpopulated
/// optional field is left out.
pub open spec fn dc_fields_spec(m: Metadata) -> Seq<char> {
    (if join_spec(views_of(m.creator@), ","@).len() == 0 {
        Seq::<char>::empty()
    } else {
        elem_spec("dc:creator"@, join_spec(views_of(m.creator@), ","@))
    }) + elem_spec("dc:title"@, m.title@) + (if m.subject@.len() == 0 {
        Seq::<char>::empty()
    } else {
        elem_spec("dc:subject"@, join_spec(views_of(m.subject@), ","@))
    }) + opt_elem_spec("dc:description"@, opt_view(m.description)) + (match m.date_published {
        Option::None => Seq::<char>::empty(),
        Option::Some(d) => elem_spec("dc:date"@, datetime_fmt_spec(d)),
    }) + opt_elem_spec("dc:type"@, opt_view(m.category)) + opt_elem_spec(
        "dc:publisher"@,
        opt_view(m.publisher),
    ) + opt_elem_spec("dc:contributor"@, opt_view(m.contributor)) + opt_elem_spec(
        "dc:format"@,
        opt_view(m.format),
    ) + identifier_spec(m.identifier) + opt_elem_spec("dc:source"@, opt_view(m.source)) + elem_spec(
        "dc:language"@,
        m.language@,
    ) + opt_elem_spec("dc:relation"@, opt_view(m.relation)) + opt_elem_spec(
        "dc:coverage"@,
        opt_view(m.coverage),
    ) + opt_elem_spec("dc:rights"@, opt_view(m.rights)) + opt_elem_spec(
        "dc:cover"@,
        opt_view(m.cover),
    )
}

/// The modification date, recorded as a property/text-content entry in
/// both dialects.
pub open spec fn dcterms_part_spec(m: Metadata) -> Seq<char> {
    match m.date_modified {
        Option::None => Seq::<char>::empty(),
        Option::Some(d) => meta_elem_spec(
            Option::None,
            Option::Some("dcterms:modified"@),
            datetime_fmt_spec(d),
        ),
    }
}

/// The metadata element of the older dialect: the Dublin Core fields,
/// then the record's free-form entries as name/content pairs, then the
/// generator entries.
pub open spec fn metadata_v2_spec(m: Metadata) -> Seq<char> {
    "<metadata>"@ + dc_fields_spec(m) + dcterms_part_spec(m) + user_metas_spec(m.meta@)
        + meta_elem_spec(Option::Some("generator"@), Option::None, m.generator@) + meta_elem_spec(
        Option::Some("generator-name"@),
        Option::None,
        m.generator_name@,
    ) + "</metadata>"@
}

/// The free-form entries in the newer dialect, as property/text-content
/// elements.
pub open spec fn user_metas_v3_spec(ms: Seq<MetaItem>) -> Seq<char>
    decreases ms,
{
    if ms.len() == 0 {
        Seq::empty()
    } else {
        user_metas_v3_spec(ms.drop_last()) + meta_elem_spec(
            Option::None,
            Option::Some(ms.last().property@),
            ms.last().data@,
        )
    }
}

/// The metadata element of the newer dialect: the same Dublin Core
/// fields, but every per-entry metadata element carries a property
/// attribute with its value as text content.
pub open spec fn metadata_v3_spec(m: Metadata) -> Seq<char> {
    "<metadata>"@ + dc_fields_spec(m) + dcterms_part_spec(m) + user_metas_v3_spec(m.meta@)
        + meta_elem_spec(Option::None, Option::Some("generator"@), m.generator@) + meta_elem_spec(
        Option::None,
        Option::Some("generator-name"@),
        m.generator_name@,
    ) + "</metadata>"@
}

/// One manifest item element.
pub open spec fn manifest_item_spec(it: ManifestItem) -> Seq<char> {
    "<item"@ + attr_spec("id"@, it.id@) + attr_spec("href"@, it.href@) + attr_spec(
        "media-type"@,
        it.media_type@,
    ) + "/>"@
}

/// The manifest items in order.
pub open spec fn manifest_items_spec(its: Seq<ManifestItem>) -> Seq<char>
    decreases its,
{
    if its.len() == 0 {
        Seq::empty()
    } else {
        manifest_items_spec(its.drop_last()) + manifest_item_spec(its.last())
    }
}

/// The reading-order references in order.
pub open spec fn spine_items_spec(its: Seq<SpineItemRef>) -> Seq<char>
    decreases its,
{
    if its.len() == 0 {
        Seq::empty()
    } else {
        spine_items_spec(its.drop_last()) + ("<itemref"@ + attr_spec("idref"@, its.last().idref@)
            + "/>"@)
    }
}

/// The spine element, left out when the reading order is empty.
pub open spec fn spine_spec(its: Seq<SpineItemRef>) -> Seq<char> {
    if its.len() == 0 {
        Seq::empty()
    } else {
        "<spine"@ + attr_spec("toc"@, "ncx"@) + ">"@ + spine_items_spec(its) + "</spine>"@
    }
}

/// The guide references in order.
pub open spec fn guide_items_spec(its: Seq<GuideReference>) -> Seq<char>
    decreases its,
{
    if its.len() == 0 {
        Seq::empty()
    } else {
        guide_items_spec(its.drop_last()) + ("<reference"@ + attr_spec("type"@, its.last().ref_type@)
            + attr_spec("title"@, its.last().title@) + attr_spec("href"@, its.last().href@)
            + "/>"@)
    }
}

/// The guide element, left out when there are no references.
pub open spec fn guide_spec(its: Seq<GuideReference>) -> Seq<char> {
    if its.len() == 0 {
        Seq::empty()
    } else {
        "<guide>"@ + guide_items_spec(its) + "</guide>"@
    }
}

/// The complete package document in the older dialect.
pub open spec fn package_v2_spec(p: Package) -> Seq<char> {
    "<package"@ + attr_spec("version"@, "v2.0"@) + attr_spec(
        "xmlns:opf"@,
        "http://www.idpf.org/2007/opf"@,
    ) + ">"@ + metadata_v2_spec(p.metadata) + "<manifest>"@ + manifest_items_spec(p.manifest@)
        + "</manifest>"@ + spine_spec(p.spine@) + guide_spec(p.guide@) + "</package>"@
}

/// The complete package document in the newer dialect: the root element
/// declares the opf, dc and xsi namespaces and the newer schema-version
/// literal.
pub open spec fn package_v3_spec(p: Package) -> Seq<char> {
    "<package"@ + attr_spec("version"@, "v3.0"@) + attr_spec(
        "xmlns:opf"@,
        "http://www.idpf.org/2007/opf"@,
    ) + attr_spec("xmlns:dc"@, "http://purl.org/dc/elements/1.1/"@) + attr_spec(
        "xmlns:xsi"@,
        "http://www.w3.org/2001/XMLSchema-instance"@,
    ) + ">"@ + metadata_v3_spec(p.metadata) + "<manifest>"@ + manifest_items_spec(p.manifest@)
        + "</manifest>"@ + spine_spec(p.spine@) + guide_spec(p.guide@) + "</package>"@
}

/// Render `<tag>value</tag>`.
fn encode_elem(tag: &str, value: &str) -> (r: String)
    ensures
        r@ == elem_spec(tag@, value@),
{
    let mut out = String::from_str("<");
    out.append(tag);
    out.append(">");
    append_escaped(&mut out, value);
    out.append("</");
    out.append(tag);
    out.append(">");
    out
}

/// Render an optional text element.
fn encode_opt_elem(tag: &str, value: &Option<String>) -> (r: String)
    ensures
        r@ == opt_elem_spec(tag@, opt_view(*value)),
{
    match value {
        Option::None => String::new(),
        Option::Some(v) => encode_elem(tag, v.as_str()),
    }
}

/// Render one free-form metadata element.
fn encode_meta_elem(name: &Option<String>, property: &Option<String>, text: &str) -> (r: String)
    ensures
        r@ == meta_elem_spec(opt_view(*name), opt_view(*property), text@),
{
    let mut out = String::from_str("<meta");
    match name {
        Option::Some(n) => append_attr(&mut out, "name", n.as_str()),
        Option::None => (),
    }
    match property {
        Option::Some(p) => append_attr(&mut out, "property", p.as_str()),
        Option::None => (),
    }
    out.append(">");
    append_escaped(&mut out, text);
    out.append("</meta>");
    proof {
        assert(out@ =~= meta_elem_spec(opt_view(*name), opt_view(*property), text@));
    }
    out
}

/// Render the free-form entries of the record.
fn encode_user_metas(ms: &Vec<MetaItem>) -> (r: String)
    ensures
        r@ == user_metas_spec(ms@),
{
    let mut out = String::new();
    let mut i: usize = 0;
    proof {
        assert(ms@.subrange(0, 0) =~= Seq::<MetaItem>::empty());
    }
    while i < ms.len()
        invariant
            i <= ms@.len(),
            out@ == user_metas_spec(ms@.subrange(0, i as int)),
        decreases ms@.len() - i,
    {
        let m = &ms[i];
        let s = encode_meta_elem(
            &Option::Some(m.name.clone()),
            &Option::Some(m.property.clone()),
            m.data.as_str(),
        );
        out.append(s.as_str());
        proof {
            let pre = ms@.subrange(0, i as int);
            let cur = ms@.subrange(0, i + 1 as int);
            assert(cur.drop_last() =~= pre);
            assert(cur.last() == ms@[i as int]);
        }
        i = i + 1;
    }
    proof {
        assert(ms@.subrange(0, ms@.len() as int) =~= ms@);
    }
    out
}

/// Render the identifier.
fn encode_identifier(idf: &Option<Identifier>) -> (r: String)
    ensures
        r@ == identifier_spec(*idf),
{
    match idf {
        Option::None => String::new(),
        Option::Some(i) => {
            if i.text.as_str().unicode_len() == 0 {
                String::new()
            } else {
                let mut out = String::from_str("<dc:identifier");
                if i.id.as_str().unicode_len() != 0 {
                    append_attr(&mut out, "id", i.id.as_str());
                }
                out.append(">");
                if i.scheme.as_str().unicode_len() != 0 {
                    let mut sch = String::from_str("<opf:scheme>");
                    append_escaped(&mut sch, i.scheme.as_str());
                    sch.append("</opf:scheme>");
                    out.append(sch.as_str());
                } else {
                    proof {
                        assert(out@ + Seq::<char>::empty() =~= out@);
                    }
                }
                append_escaped(&mut out, i.text.as_str());
                out.append("</dc:identifier>");
                proof {
                    assert(out@ =~= identifier_spec(*idf));
                }
                out
            }
        },
    }
}

/// Render the Dublin Core fields of the record.
fn encode_dc_fields(m: &Metadata) -> (r: String)
    ensures
        r@ == dc_fields_spec(*m),
{
    let joined_creator = join_comma(&m.creator);
    let mut out = if joined_creator.as_str().unicode_len() != 0 {
        encode_elem("dc:creator", joined_creator.as_str())
    } else {
        String::new()
    };
    let s = encode_elem("dc:title", m.title.as_str());
    out.append(s.as_str());
    if m.subject.len() != 0 {
        let joined_subject = join_comma(&m.subject);
        let s = encode_elem("dc:subject", joined_subject.as_str());
        out.append(s.as_str());
    }
    let s = encode_opt_elem("dc:description", &m.description);
    out.append(s.as_str());
    match &m.date_published {
        Option::Some(d) => {
            let f = d.format();
            let s = encode_elem("dc:date", f.as_str());
            out.append(s.as_str());
        },
        Option::None => (),
    }
    let s = encode_opt_elem("dc:type", &m.category);
    out.append(s.as_str());
    let s = encode_opt_elem("dc:publisher", &m.publisher);
    out.append(s.as_str());
    let s = encode_opt_elem("dc:contributor", &m.contributor);
    out.append(s.as_str());
    let s = encode_opt_elem("dc:format", &m.format);
    out.append(s.as_str());
    let s = encode_identifier(&m.identifier);
    out.append(s.as_str());
    let s = encode_opt_elem("dc:source", &m.source);
    out.append(s.as_str());
    let s = encode_elem("dc:language", m.language.as_str());
    out.append(s.as_str());
    let s = encode_opt_elem("dc:relation", &m.relation);
    out.append(s.as_str());
    let s = encode_opt_elem("dc:coverage", &m.coverage);
    out.append(s.as_str());
    let s = encode_opt_elem("dc:rights", &m.rights);
    out.append(s.as_str());
    let s = encode_opt_elem("dc:cover", &m.cover);
    out.append(s.as_str());
    proof {
        assert(out@ =~= dc_fields_spec(*m));
    }
    out
}

/// Render the modification-date entry.
fn encode_dcterms_part(m: &Metadata) -> (r: String)
    ensures
        r@ == dcterms_part_spec(*m),
{
    match &m.date_modified {
        Option::Some(d) => {
            let f = d.format();
            encode_meta_elem(
                &Option::None,
                &Option::Some(String::from_str("dcterms:modified")),
                f.as_str(),
            )
        },
        Option::None => String::new(),
    }
}

/// Render the free-form entries in the newer dialect.
fn encode_user_metas_v3(ms: &Vec<MetaItem>) -> (r: String)
    ensures
        r@ == user_metas_v3_spec(ms@),
{
    let mut out = String::new();
    let mut i: usize = 0;
    proof {
        assert(ms@.subrange(0, 0) =~= Seq::<MetaItem>::empty());
    }
    while i < ms.len()
        invariant
            i <= ms@.len(),
            out@ == user_metas_v3_spec(ms@.subrange(0, i as int)),
        decreases ms@.len() - i,
    {
        let m = &ms[i];
        let s = encode_meta_elem(
            &Option::None,
            &Option::Some(m.property.clone()),
            m.data.as_str(),
        );
        out.append(s.as_str());
        proof {
            let pre = ms@.subrange(0, i as int);
            let cur = ms@.subrange(0, i + 1 as int);
            assert(cur.drop_last() =~= pre);
            assert(cur.last() == ms@[i as int]);
        }
        i = i + 1;
    }
    proof {
        assert(ms@.subrange(0, ms@.len() as int) =~= ms@);
    }
    out
}

/// Render the metadata element of the older dialect.
fn encode_metadata_v2(m: &Metadata) -> (r: String)
    ensures
        r@ == metadata_v2_spec(*m),
{
    let mut out = String::from_str("<metadata>");
    let s = encode_dc_fields(m);
    out.append(s.as_str());
    let s = encode_dcterms_part(m);
    out.append(s.as_str());
    let s = encode_user_metas(&m.meta);
    out.append(s.as_str());
    let s = encode_meta_elem(
        &Option::Some(String::from_str("generator")),
        &Option::None,
        m.generator.as_str(),
    );
    out.append(s.as_str());
    let s = encode_meta_elem(
        &Option::Some(String::from_str("generator-name")),
        &Option::None,
        m.generator_name.as_str(),
    );
    out.append(s.as_str());
    out.append("</metadata>");
    out
}

/// Render the metadata element of the newer dialect.
fn encode_metadata_v3(m: &Metadata) -> (r: String)
    ensures
        r@ == metadata_v3_spec(*m),
{
    let mut out = String::from_str("<metadata>");
    let s = encode_dc_fields(m);
    out.append(s.as_str());
    let s = encode_dcterms_part(m);
    out.append(s.as_str());
    let s = encode_user_metas_v3(&m.meta);
    out.append(s.as_str());
    let s = encode_meta_elem(
        &Option::None,
        &Option::Some(String::from_str("generator")),
        m.generator.as_str(),
    );
    out.append(s.as_str());
    let s = encode_meta_elem(
        &Option::None,
        &Option::Some(String::from_str("generator-name")),
        m.generator_name.as_str(),
    );
    out.append(s.as_str());
    out.append("</metadata>");
    out
}

/// Render the manifest items.
fn encode_manifest_items(its: &Vec<ManifestItem>) -> (r: String)
    ensures
        r@ == manifest_items_spec(its@),
{
    let mut out = String::new();
    let mut i: usize = 0;
    proof {
        assert(its@.subrange(0, 0) =~= Seq::<ManifestItem>::empty());
    }
    while i < its.len()
        invariant
            i <= its@.len(),
            out@ == manifest_items_spec(its@.subrange(0, i as int)),
        decreases its@.len() - i,
    {
        let it = &its[i];
        let mut s = String::from_str("<item");
        append_attr(&mut s, "id", it.id.as_str());
        append_attr(&mut s, "href", it.href.as_str());
        append_attr(&mut s, "media-type", it.media_type.as_str());
        s.append("/>");
        out.append(s.as_str());
        proof {
            let pre = its@.subrange(0, i as int);
            let cur = its@.subrange(0, i + 1 as int);
            assert(cur.drop_last() =~= pre);
            assert(cur.last() == its@[i as int]);
        }
        i = i + 1;
    }
    proof {
        assert(its@.subrange(0, its@.len() as int) =~= its@);
    }
    out
}

/// Render the spine element.
fn encode_spine(its: &Vec<SpineItemRef>) -> (r: String)
    ensures
        r@ == spine_spec(its@),
{
    if its.len() == 0 {
        return String::new();
    }
    let mut out = String::from_str("<spine");
    append_attr(&mut out, "toc", "ncx");
    out.append(">");
    let ghost head = out@;
    let mut i: usize = 0;
    proof {
        assert(its@.subrange(0, 0) =~= Seq::<SpineItemRef>::empty());
    }
    while i < its.len()
        invariant
            i <= its@.len(),
            out@ == head + spine_items_spec(its@.subrange(0, i as int)),
        decreases its@.len() - i,
    {
        let it = &its[i];
        let mut s = String::from_str("<itemref");
        append_attr(&mut s, "idref", it.idref.as_str());
        s.append("/>");
        out.append(s.as_str());
        proof {
            let pre = its@.subrange(0, i as int);
            let cur = its@.subrange(0, i + 1 as int);
            assert(cur.drop_last() =~= pre);
            assert(cur.last() == its@[i as int]);
            assert(out@ =~= head + spine_items_spec(cur));
        }
        i = i + 1;
    }
    out.append("</spine>");
    proof {
        assert(its@.subrange(0, its@.len() as int) =~= its@);
        assert(out@ =~= spine_spec(its@));
    }
    out
}

/// Render the guide element.
fn encode_guide(its: &Vec<GuideReference>) -> (r: String)
    ensures
        r@ == guide_spec(its@),
{
    if its.len() == 0 {
        return String::new();
    }
    let mut out = String::from_str("<guide>");
    let ghost head = out@;
    let mut i: usize = 0;
    proof {
        assert(its@.subrange(0, 0) =~= Seq::<GuideReference>::empty());
    }
    while i < its.len()
        invariant
            i <= its@.len(),
            out@ == head + guide_items_spec(its@.subrange(0, i as int)),
        decreases its@.len() - i,
    {
        let it = &its[i];
        let mut s = String::from_str("<reference");
        append_attr(&mut s, "type", it.ref_type.as_str());
        append_attr(&mut s, "title", it.title.as_str());
        append_attr(&mut s, "href", it.href.as_str());
        s.append("/>");
        out.append(s.as_str());
        proof {
            let pre = its@.subrange(0, i as int);
            let cur = its@.subrange(0, i + 1 as int);
            assert(cur.drop_last() =~= pre);
            assert(cur.last() == its@[i as int]);
            assert(out@ =~= head + guide_items_spec(cur));
        }
        i = i + 1;
    }
    out.append("</guide>");
    proof {
        assert(its@.subrange(0, its@.len() as int) =~= its@);
        assert(out@ =~= guide_spec(its@));
    }
    out
}

impl Package {
    /// A fresh, empty package.
    pub fn new() -> (r: Package)
        ensures
            r.metadata.title@ == Seq::<char>::empty(),
            r.metadata.language@ == "zh"@,
            r.manifest@ == Seq::<ManifestItem>::empty(),
            r.spine@ == Seq::<SpineItemRef>::empty(),
            r.guide@ == Seq::<GuideReference>::empty(),
            r.bindings@ == Seq::<BindingItem>::empty(),
    {
        Package {
            metadata: Metadata::default(),
            manifest: Vec::new(),
            spine: Vec::new(),
            guide: Vec::new(),
            bindings: Vec::new(),
        }
    }

    /// Append a free-form metadata entry.
    pub fn add_other_metadata(&mut self, metadata: MetaItem)
        ensures
            final(self).metadata.meta@ == old(self).metadata.meta@.push(metadata),
            final(self).metadata == (Metadata {
                meta: final(self).metadata.meta,
                ..old(self).metadata
            }),
            final(self).manifest == old(self).manifest,
            final(self).spine == old(self).spine,
            final(self).guide == old(self).guide,
            final(self).bindings == old(self).bindings,
    {
        self.metadata.meta.push(metadata);
    }

    /// Replace the bibliographic record.
    pub fn set_metadata(&mut self, metadata: Metadata)
        ensures
            final(self).metadata == metadata,
            final(self).manifest == old(self).manifest,
            final(self).spine == old(self).spine,
            final(self).guide == old(self).guide,
            final(self).bindings == old(self).bindings,
    {
        self.metadata = metadata;
    }

    /// Append a manifest entry.
    pub fn add_manifest(&mut self, manifest: ManifestItem)
        ensures
            final(self).manifest@ == old(self).manifest@.push(manifest),
            final(self).metadata == old(self).metadata,
            final(self).spine == old(self).spine,
            final(self).guide == old(self).guide,
            final(self).bindings == old(self).bindings,
    {
        self.manifest.push(manifest);
    }

    /// Append a reading-order reference.
    pub fn add_spine(&mut self, spine: SpineItemRef)
        ensures
            final(self).spine@ == old(self).spine@.push(spine),
            final(self).metadata == old(self).metadata,
            final(self).manifest == old(self).manifest,
            final(self).guide == old(self).guide,
            final(self).bindings == old(self).bindings,
    {
        self.spine.push(spine);
    }

    /// Append a guide reference.
    pub fn add_guide(&mut self, guide: GuideReference)
        ensures
            final(self).guide@ == old(self).guide@.push(guide),
            final(self).metadata == old(self).metadata,
            final(self).manifest == old(self).manifest,
            final(self).spine == old(self).spine,
            final(self).bindings == old(self).bindings,
    {
        self.guide.push(guide);
    }

    /// Append a binding entry.
    pub fn add_binding(&mut self, binding: BindingItem)
        ensures
            final(self).bindings@ == old(self).bindings@.push(binding),
            final(self).metadata == old(self).metadata,
            final(self).manifest == old(self).manifest,
            final(self).spine == old(self).spine,
            final(self).guide == old(self).guide,
    {
        self.bindings.push(binding);
    }

    /// Render the package document in the dialect selected by `ver`.
    pub fn encode_xml(&self, ver: EpubVersion) -> (r: Result<String, Error>)
        ensures
            match ver {
                EpubVersion::V20 => r matches Result::Ok(s) && s@ == package_v2_spec(*self),
                EpubVersion::V30 => r matches Result::Ok(s) && s@ == package_v3_spec(*self),
            },
    {
        match ver {
            EpubVersion::V20 => self.encode_v2_xml(),
            EpubVersion::V30 => self.encode_v3_xml(),
        }
    }

    /// Render the older-dialect package document.
    fn encode_v2_xml(&self) -> (r: Result<String, Error>)
        ensures
            r matches Result::Ok(s) && s@ == package_v2_spec(*self),
    {
        let mut out = String::from_str("<package");
        append_attr(&mut out, "version", "v2.0");
        append_attr(&mut out, "xmlns:opf", "http://www.idpf.org/2007/opf");
        out.append(">");
        let s = encode_metadata_v2(&self.metadata);
        out.append(s.as_str());
        out.append("<manifest>");
        let s = encode_manifest_items(&self.manifest);
        out.append(s.as_str());
        out.append("</manifest>");
        let s = encode_spine(&self.spine);
        out.append(s.as_str());
        let s = encode_guide(&self.guide);
        out.append(s.as_str());
        out.append("</package>");
        Result::Ok(out)
    }

    /// Render the newer-dialect package document.
    fn encode_v3_xml(&self) -> (r: Result<String, Error>)
        ensures
            r matches Result::Ok(s) && s@ == package_v3_spec(*self),
    {
        let mut out = String::from_str("<package");
        append_attr(&mut out, "version", "v3.0");
        append_attr(&mut out, "xmlns:opf", "http://www.idpf.org/2007/opf");
        append_attr(&mut out, "xmlns:dc", "http://purl.org/dc/elements/1.1/");
        append_attr(&mut out, "xmlns:xsi", "http://www.w3.org/2001/XMLSchema-instance");
        out.append(">");
        let s = encode_metadata_v3(&self.metadata);
        out.append(s.as_str());
        out.append("<manifest>");
        let s = encode_manifest_items(&self.manifest);
        out.append(s.as_str());
        out.append("</manifest>");
        let s = encode_spine(&self.spine);
        out.append(s.as_str());
        let s = encode_guide(&self.guide);
        out.append(s.as_str());
        out.append("</package>");
        Result::Ok(out)
    }
}

} // verus!
