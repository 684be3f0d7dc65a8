//! The wrapped content document of one section: a head with title, links
//! and inline styles, and a body holding caller-supplied markup, together
//! with the verified encoder that renders the document.

use crate::strutil::is_blank_spec;
use crate::xmlesc::{append_attr, append_escaped, attr_spec, escape_spec, none_or_blank,
    opt_is_blank};
use crate::Error;
use vstd::prelude::*;

verus! {

/// The document title together with an optional text-direction attribute.
#[derive(Debug, Clone)]
pub struct XHtmlTitle {
    pub text: String,
    pub dir: Option<String>,
}

impl XHtmlTitle {
    pub fn new(text: String) -> (r: XHtmlTitle)
        ensures
            r.text@ == text@,
            r.dir is None,
    {
        XHtmlTitle { text, dir: Option::None }
    }
}

impl Default for XHtmlTitle {
    fn default() -> (r: XHtmlTitle)
        ensures
            r.text@ == Seq::<char>::empty(),
            r.dir matches Option::Some(d) && d@ == "auto"@,
    {
        XHtmlTitle { text: String::new(), dir: Option::Some(String::from_str("auto")) }
    }
}

/// An inline style block.
#[derive(Debug, Clone)]
pub struct StyleContent {
    pub style_type: Option<String>,
    pub value: Option<String>,
}

impl StyleContent {
    pub fn new(value: String, style_type: String) -> (r: StyleContent)
        ensures
            r.value matches Option::Some(v) && v@ == value@,
            r.style_type matches Option::Some(t) && t@ == style_type@,
    {
        StyleContent { style_type: Option::Some(style_type), value: Option::Some(value) }
    }
}

impl Default for StyleContent {
    fn default() -> (r: StyleContent)
        ensures
            r.style_type is None,
            r.value is None,
    {
        StyleContent { style_type: Option::None, value: Option::None }
    }
}

/// A link element in the head (most often a stylesheet reference).
#[derive(Debug, Clone)]
pub struct XHtmlLinkItem {
    pub href: String,
    pub rel: Option<String>,
    pub link_type: Option<String>,
}

impl XHtmlLinkItem {
    pub fn new(href: String, link_type: String, rel: Option<String>) -> (r: XHtmlLinkItem)
        ensures
            r.href@ == href@,
            r.rel == rel,
            r.link_type matches Option::Some(t) && t@ == link_type@,
    {
        XHtmlLinkItem { href, rel, link_type: Option::Some(link_type) }
    }
}

impl Default for XHtmlLinkItem {
    fn default() -> (r: XHtmlLinkItem)
        ensures
            r.href@ == Seq::<char>::empty(),
            r.rel matches Option::Some(s) && s@ == "stylesheet"@,
            r.link_type matches Option::Some(t) && t@ == Seq::<char>::empty(),
    {
        XHtmlLinkItem {
            href: String::new(),
            rel: Option::Some(String::from_str("stylesheet")),
            link_type: Option::Some(String::new()),
        }
    }
}

/// The document body: raw caller-supplied markup, wrapped verbatim.
#[derive(Debug, Clone)]
pub struct XHtmlBody {
    pub content: String,
    pub dir: Option<String>,
}

impl XHtmlBody {
    pub fn new(content: String) -> (r: XHtmlBody)
        ensures
            r.content@ == content@,
            r.dir matches Option::Some(d) && d@ == "auto"@,
    {
        XHtmlBody { content, dir: Option::Some(String::from_str("auto")) }
    }
}

impl Default for XHtmlBody {
    fn default() -> (r: XHtmlBody)
        ensures
            r.content@ == Seq::<char>::empty(),
            r.dir matches Option::Some(d) && d@ == "auto"@,
    {
        XHtmlBody::new(String::new())
    }
}

/// The document head.
#[derive(Debug, Clone)]
pub struct XHtmlHead {
    pub lang: String,
    pub title: XHtmlTitle,
    pub link: Vec<XHtmlLinkItem>,
    pub style_content: Vec<StyleContent>,
}

impl Default for XHtmlHead {
    fn default() -> (r: XHtmlHead)
        ensures
            r.lang@ == Seq::<char>::empty(),
            r.title.text@ == Seq::<char>::empty(),
            r.title.dir matches Option::Some(d) && d@ == "auto"@,
            r.link@ == Seq::<XHtmlLinkItem>::empty(),
            r.style_content@ == Seq::<StyleContent>::empty(),
    {
        XHtmlHead {
            lang: String::new(),
            title: XHtmlTitle::default(),
            link: Vec::new(),
            style_content: Vec::new(),
        }
    }
}

impl XHtmlHead {
    /// Set the language of the head.
    pub fn set_lang(self, lang: String) -> (r: XHtmlHead)
        ensures
            r == (XHtmlHead { lang, ..self }),
    {
        XHtmlHead { lang, ..self }
    }

    /// Set the title of the head.
    pub fn set_title(self, title: String) -> (r: XHtmlHead)
        ensures
            r.title.text@ == title@,
            r.title.dir is None,
            r.lang == self.lang,
            r.link == self.link,
            r.style_content == self.style_content,
    {
        XHtmlHead { title: XHtmlTitle::new(title), ..self }
    }

    /// Add a style block to the head.
    pub fn add_style(&mut self, style: StyleContent)
        ensures
            final(self).style_content@ == old(self).style_content@.push(style),
            final(self).lang == old(self).lang,
            final(self).title == old(self).title,
            final(self).link == old(self).link,
    {
        self.style_content.push(style);
    }

    /// Add an inline stylesheet of type `text/css` to the head.
    pub fn add_style_content(self, style: String) -> (r: XHtmlHead)
        ensures
            r.style_content@.len() == self.style_content@.len() + 1,
            r.style_content@.subrange(0, self.style_content@.len() as int)
                == self.style_content@,
            r.style_content@.last().value matches Option::Some(v) && v@ == style@,
            r.style_content@.last().style_type matches Option::Some(t) && t@ == "text/css"@,
            r.lang == self.lang,
            r.title == self.title,
            r.link == self.link,
    {
        let mut h = self;
        let item = StyleContent::new(style, String::from_str("text/css"));
        h.style_content.push(item);
        proof {
            assert(h.style_content@.subrange(0, h.style_content@.len() - 1)
                =~= h.style_content@.drop_last());
        }
        h
    }

    /// Add a link to the head.
    pub fn add_link(&mut self, link: XHtmlLinkItem)
        ensures
            final(self).link@ == old(self).link@.push(link),
            final(self).lang == old(self).lang,
            final(self).title == old(self).title,
            final(self).style_content == old(self).style_content,
    {
        self.link.push(link);
    }
}

/// A complete wrapped content document.
#[derive(Debug, Clone)]
pub struct XHtmlRoot {
    pub xmlns: String,
    pub xmlns_epub: String,
    pub head: XHtmlHead,
    pub body: XHtmlBody,
}

impl Default for XHtmlRoot {
    fn default() -> (r: XHtmlRoot)
        ensures
            r.xmlns@ == "http://www.w3.org/1999/xhtml"@,
            r.xmlns_epub@ == "http://www.idpf.org/2007/ops"@,
            r.head.lang@ == Seq::<char>::empty(),
            r.head.title.text@ == Seq::<char>::empty(),
            r.head.title.dir matches Option::Some(d) && d@ == "auto"@,
            r.head.link@ == Seq::<XHtmlLinkItem>::empty(),
            r.head.style_content@ == Seq::<StyleContent>::empty(),
            r.body.content@ == Seq::<char>::empty(),
            r.body.dir matches Option::Some(d) && d@ == "auto"@,
    {
        XHtmlRoot {
            xmlns: String::from_str("http://www.w3.org/1999/xhtml"),
            xmlns_epub: String::from_str("http://www.idpf.org/2007/ops"),
            head: XHtmlHead::default(),
            body: XHtmlBody::default(),
        }
    }
}

/// View of an optional string.
pub open spec fn opt_str_view(v: Option<String>) -> Option<Seq<char>> {
    match v {
        Option::None => Option::None,
        Option::Some(s) => Option::Some(s@),
    }
}

/// Plain-value model of a link element.
#[verifier::ext_equal]
pub ghost struct LinkModel {
    pub href: Seq<char>,
    pub rel: Option<Seq<char>>,
    pub link_type: Option<Seq<char>>,
}

/// Plain-value model of a style block.
#[verifier::ext_equal]
pub ghost struct StyleModel {
    pub style_type: Option<Seq<char>>,
    pub value: Option<Seq<char>>,
}

/// Plain-value model of a whole wrapped content document.
#[verifier::ext_equal]
pub ghost struct XHtmlModel {
    pub xmlns: Seq<char>,
    pub xmlns_epub: Seq<char>,
    pub lang: Seq<char>,
    pub title_text: Seq<char>,
    pub title_dir: Option<Seq<char>>,
    pub links: Seq<LinkModel>,
    pub styles: Seq<StyleModel>,
    pub body: Seq<char>,
    pub body_dir: Option<Seq<char>>,
}

pub open spec fn link_model(l: XHtmlLinkItem) -> LinkModel {
    LinkModel { href: l.href@, rel: opt_str_view(l.rel), link_type: opt_str_view(l.link_type) }
}

pub open spec fn style_model(s: StyleContent) -> StyleModel {
    StyleModel { style_type: opt_str_view(s.style_type), value: opt_str_view(s.value) }
}

/// The plain-value model of a document.
pub open spec fn xhtml_model(r: XHtmlRoot) -> XHtmlModel {
    XHtmlModel {
        xmlns: r.xmlns@,
        xmlns_epub: r.xmlns_epub@,
        lang: r.head.lang@,
        title_text: r.head.title.text@,
        title_dir: opt_str_view(r.head.title.dir),
        links: r.head.link@.map_values(|l: XHtmlLinkItem| link_model(l)),
        styles: r.head.style_content@.map_values(|s: StyleContent| style_model(s)),
        body: r.body.content@,
        body_dir: opt_str_view(r.body.dir),
    }
}

/// Markup of the optional `dir` attribute of the title.
pub open spec fn title_dir_spec(dir: Option<String>) -> Seq<char> {
    if none_or_blank(dir) {
        Seq::empty()
    } else {
        attr_spec("dir"@, dir->Some_0@)
    }
}

/// Markup of the document title.
pub open spec fn title_spec(t: XHtmlTitle) -> Seq<char> {
    "<title"@ + title_dir_spec(t.dir) + ">"@ + escape_spec(t.text@) + "</title>"@
}

/// Markup of one link element.
pub open spec fn link_item_spec(l: XHtmlLinkItem) -> Seq<char> {
    "<link"@ + attr_spec("href"@, l.href@) + (if none_or_blank(l.rel) {
        Seq::<char>::empty()
    } else {
        attr_spec("rel"@, l.rel->Some_0@)
    }) + (if none_or_blank(l.link_type) {
        Seq::<char>::empty()
    } else {
        attr_spec("type"@, l.link_type->Some_0@)
    }) + "/>"@
}

/// Markup of the link elements in order.
pub open spec fn links_spec(ls: Seq<XHtmlLinkItem>) -> Seq<char>
    decreases ls.len(),
{
    if ls.len() == 0 {
        Seq::empty()
    } else {
        links_spec(ls.drop_last()) + link_item_spec(ls.last())
    }
}

/// Markup of one style block.
pub open spec fn style_item_spec(s: StyleContent) -> Seq<char> {
    "<style"@ + (if none_or_blank(s.style_type) {
        Seq::<char>::empty()
    } else {
        attr_spec("type"@, s.style_type->Some_0@)
    }) + ">"@ + (if none_or_blank(s.value) {
        Seq::<char>::empty()
    } else {
        escape_spec(s.value->Some_0@)
    }) + "</style>"@
}

/// Markup of the style blocks in order.
pub open spec fn styles_spec(ss: Seq<StyleContent>) -> Seq<char>
    decreases ss.len(),
{
    if ss.len() == 0 {
        Seq::empty()
    } else {
        styles_spec(ss.drop_last()) + style_item_spec(ss.last())
    }
}

/// Markup of the head element.
pub open spec fn head_spec(h: XHtmlHead) -> Seq<char> {
    "<head"@ + (if h.lang@.len() == 0 {
        Seq::<char>::empty()
    } else {
        attr_spec("lang"@, h.lang@)
    }) + ">"@ + title_spec(h.title) + links_spec(h.link@) + styles_spec(h.style_content@)
        + "</head>"@
}

/// Markup of the body element; the content is wrapped verbatim, without
/// escaping, since it is itself markup supplied by the caller.
pub open spec fn body_spec(b: XHtmlBody) -> Seq<char> {
    "<body"@ + (match b.dir {
        Option::None => Seq::<char>::empty(),
        Option::Some(d) => attr_spec("dir"@, d@),
    }) + ">"@ + b.content@ + "</body>"@
}

/// The complete document markup.
pub open spec fn xhtml_doc_spec(r: XHtmlRoot) -> Seq<char> {
    "<?xml version=\"1.0\" encoding=\"UTF-8\" ?>\n<!DOCTYPE html>\n<html"@
        + attr_spec("xmlns"@, r.xmlns@) + attr_spec("xmlns:epub"@, r.xmlns_epub@) + ">"@
        + head_spec(r.head) + body_spec(r.body) + "</html>"@
}

/// Append the link elements of `ls` to `out`.
fn append_links(out: &mut String, ls: &Vec<XHtmlLinkItem>)
    ensures
        final(out)@ == old(out)@ + links_spec(ls@),
{
    let mut i: usize = 0;
    while i < ls.len()
        invariant
            i <= ls@.len(),
            out@ == old(out)@ + links_spec(ls@.subrange(0, i as int)),
        decreases ls@.len() - i,
    {
        let l = &ls[i];
        out.append("<link");
        append_attr(out, "href", l.href.as_str());
        if !opt_is_blank(&l.rel) {
            match &l.rel {
                Option::Some(r) => append_attr(out, "rel", r.as_str()),
                Option::None => (),
            }
        }
        if !opt_is_blank(&l.link_type) {
            match &l.link_type {
                Option::Some(t) => append_attr(out, "type", t.as_str()),
                Option::None => (),
            }
        }
        out.append("/>");
        proof {
            let pre = ls@.subrange(0, i as int);
            let cur = ls@.subrange(0, i + 1 as int);
            assert(cur.drop_last() =~= pre);
            assert(cur.last() == ls@[i as int]);
            assert(out@ =~= old(out)@ + links_spec(cur));
        }
        i = i + 1;
    }
    proof {
        assert(ls@.subrange(0, ls@.len() as int) =~= ls@);
    }
}

/// Append the style blocks of `ss` to `out`.
fn append_styles(out: &mut String, ss: &Vec<StyleContent>)
    ensures
        final(out)@ == old(out)@ + styles_spec(ss@),
{
    let mut i: usize = 0;
    while i < ss.len()
        invariant
            i <= ss@.len(),
            out@ == old(out)@ + styles_spec(ss@.subrange(0, i as int)),
        decreases ss@.len() - i,
    {
        let s = &ss[i];
        out.append("<style");
        if !opt_is_blank(&s.style_type) {
            match &s.style_type {
                Option::Some(t) => append_attr(out, "type", t.as_str()),
                Option::None => (),
            }
        }
        out.append(">");
        if !opt_is_blank(&s.value) {
            match &s.value {
                Option::Some(v) => append_escaped(out, v.as_str()),
                Option::None => (),
            }
        }
        out.append("</style>");
        proof {
            let pre = ss@.subrange(0, i as int);
            let cur = ss@.subrange(0, i + 1 as int);
            assert(cur.drop_last() =~= pre);
            assert(cur.last() == ss@[i as int]);
            assert(out@ =~= old(out)@ + styles_spec(cur));
        }
        i = i + 1;
    }
    proof {
        assert(ss@.subrange(0, ss@.len() as int) =~= ss@);
    }
}

/// Render the title element.
fn encode_title(t: &XHtmlTitle) -> (r: String)
    ensures
        r@ == title_spec(*t),
{
    let mut out = String::from_str("<title");
    if !opt_is_blank(&t.dir) {
        match &t.dir {
            Option::Some(d) => append_attr(&mut out, "dir", d.as_str()),
            Option::None => (),
        }
    }
    out.append(">");
    append_escaped(&mut out, t.text.as_str());
    out.append("</title>");
    out
}

/// Render the head element.
fn encode_head(h: &XHtmlHead) -> (r: String)
    ensures
        r@ == head_spec(*h),
{
    let mut out = String::from_str("<head");
    if h.lang.as_str().unicode_len() != 0 {
        append_attr(&mut out, "lang", h.lang.as_str());
    }
    out.append(">");
    let title_str = encode_title(&h.title);
    out.append(title_str.as_str());
    append_links(&mut out, &h.link);
    append_styles(&mut out, &h.style_content);
    out.append("</head>");
    out
}

/// Render the body element.
fn encode_body(b: &XHtmlBody) -> (r: String)
    ensures
        r@ == body_spec(*b),
{
    let mut out = String::from_str("<body");
    match &b.dir {
        Option::Some(d) => append_attr(&mut out, "dir", d.as_str()),
        Option::None => (),
    }
    out.append(">");
    out.append(b.content.as_str());
    out.append("</body>");
    out
}

impl XHtmlRoot {
    /// Set the body markup.
    pub fn set_body(&mut self, body: String)
        ensures
            final(self).body.content@ == body@,
            final(self).body.dir == old(self).body.dir,
            final(self).head == old(self).head,
            final(self).xmlns == old(self).xmlns,
            final(self).xmlns_epub == old(self).xmlns_epub,
    {
        self.body.content = body;
    }

    /// Set the title.
    pub fn set_title(&mut self, title: String)
        ensures
            final(self).head.title.text@ == title@,
            final(self).head.title.dir is None,
            final(self).head.lang == old(self).head.lang,
            final(self).head.link == old(self).head.link,
            final(self).head.style_content == old(self).head.style_content,
            final(self).body == old(self).body,
            final(self).xmlns == old(self).xmlns,
            final(self).xmlns_epub == old(self).xmlns_epub,
    {
        self.head.title = XHtmlTitle::new(title);
    }

    /// Add a link to the head.
    pub fn add_link(&mut self, link: XHtmlLinkItem)
        ensures
            final(self).head.link@ == old(self).head.link@.push(link),
            final(self).head.lang == old(self).head.lang,
            final(self).head.title == old(self).head.title,
            final(self).head.style_content == old(self).head.style_content,
            final(self).body == old(self).body,
            final(self).xmlns == old(self).xmlns,
            final(self).xmlns_epub == old(self).xmlns_epub,
    {
        self.head.add_link(link);
    }

    /// Add a style block to the head.
    pub fn add_style(&mut self, style: StyleContent)
        ensures
            final(self).head.style_content@ == old(self).head.style_content@.push(style),
            final(self).head.lang == old(self).head.lang,
            final(self).head.title == old(self).head.title,
            final(self).head.link == old(self).head.link,
            final(self).body == old(self).body,
            final(self).xmlns == old(self).xmlns,
            final(self).xmlns_epub == old(self).xmlns_epub,
    {
        self.head.add_style(style);
    }

    /// Add an inline stylesheet of type `text/css`.
    pub fn add_style_content(&mut self, style: String)
        ensures
            final(self).head.style_content@.len() == old(self).head.style_content@.len() + 1,
            final(self).head.style_content@.drop_last() == old(self).head.style_content@,
            final(self).head.style_content@.last().value matches Option::Some(v) && v@ == style@,
            final(self).head.style_content@.last().style_type matches Option::Some(t)
                && t@ == "text/css"@,
            final(self).head.lang == old(self).head.lang,
            final(self).head.title == old(self).head.title,
            final(self).head.link == old(self).head.link,
            final(self).body == old(self).body,
            final(self).xmlns == old(self).xmlns,
            final(self).xmlns_epub == old(self).xmlns_epub,
    {
        let item = StyleContent::new(style, String::from_str("text/css"));
        self.head.style_content.push(item);
        proof {
            assert(self.head.style_content@.drop_last() =~= old(self).head.style_content@);
        }
    }

    /// Render the complete document.  The head fields are escaped; the body
    /// markup is wrapped verbatim.
    pub fn encode_xml(&self) -> (r: Result<String, Error>)
        ensures
            r matches Result::Ok(s) && s@ == xhtml_doc_spec(*self),
    {
        let mut out = String::from_str(
            "<?xml version=\"1.0\" encoding=\"UTF-8\" ?>\n<!DOCTYPE html>\n<html",
        );
        append_attr(&mut out, "xmlns", self.xmlns.as_str());
        append_attr(&mut out, "xmlns:epub", self.xmlns_epub.as_str());
        out.append(">");
        let head_str = encode_head(&self.head);
        out.append(head_str.as_str());
        let body_str = encode_body(&self.body);
        out.append(body_str.as_str());
        out.append("</html>");
        Result::Ok(out)
    }
}

} // verus!
