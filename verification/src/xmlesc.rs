//! XML character escaping.  The replacement table is stated as a spec
//! function; the work is done by the `quick-xml` crate behind a trusted
//! wrapper.

use vstd::prelude::*;

verus! {

/// The XML replacement for one character: the five markup-significant
/// characters and `\r` become character references, everything else is
/// kept as it is.
pub open spec fn escape_char_spec(c: char) -> Seq<char> {
    if c == '<' {
        "&lt;"@
    } else if c == '>' {
        "&gt;"@
    } else if c == '&' {
        "&amp;"@
    } else if c == '\'' {
        "&apos;"@
    } else if c == '"' {
        "&quot;"@
    } else if c == '\r' {
        "&#13;"@
    } else {
        seq![c]
    }
}

/// Character-wise XML escaping of a whole string.
pub open spec fn escape_spec(s: Seq<char>) -> Seq<char>
    decreases s.len(),
{
    if s.len() == 0 {
        Seq::empty()
    } else {
        escape_spec(s.drop_last()) + escape_char_spec(s.last())
    }
}

/// Relies on `quick_xml::escape::escape`: it replaces every `<`, `>`, `&`,
/// `'`, `"` and `\r` with its XML reference (`&lt;`, `&gt;`, `&amp;`,
/// `&apos;`, `&quot;`, `&#13;`) and copies every other character unchanged.
#[verifier::external_body]
pub fn xml_escape(s: &str) -> (r: String)
    ensures
        r@ == escape_spec(s@),
{
    quick_xml::escape::escape(s).into_owned()
}

/// Append the escaped form of `s` to `out`.
pub fn append_escaped(out: &mut String, s: &str)
    ensures
        final(out)@ == old(out)@ + escape_spec(s@),
{
    let e = xml_escape(s);
    out.append(e.as_str());
}

/// One XML attribute with a leading space: ` name="escaped-value"`.
pub open spec fn attr_spec(name: Seq<char>, value: Seq<char>) -> Seq<char> {
    " "@ + name + "=\""@ + escape_spec(value) + "\""@
}

/// Append ` name="value"` to `out`, escaping the value.
pub fn append_attr(out: &mut String, name: &str, value: &str)
    ensures
        final(out)@ == old(out)@ + attr_spec(name@, value@),
{
    out.append(" ");
    out.append(name);
    out.append("=\"");
    append_escaped(out, value);
    out.append("\"");
    assert(out@ =~= old(out)@ + attr_spec(name@, value@));
}

/// Whether an optional string is absent, empty or all whitespace; such a
/// value is treated as unpopulated and left out of the markup.
pub open spec fn none_or_blank(v: Option<String>) -> bool {
    match v {
        Option::None => true,
        Option::Some(s) => crate::strutil::is_blank_spec(s@),
    }
}

/// Executable test for `none_or_blank`.
pub fn opt_is_blank(v: &Option<String>) -> (r: bool)
    ensures
        r == none_or_blank(*v),
{
    match v {
        Option::None => true,
        Option::Some(s) => crate::strutil::is_blank(s.as_str()),
    }
}

} // verus!
