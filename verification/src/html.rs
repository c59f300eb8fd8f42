//! Escaping text for HTML, as the `htmlize` crate does it: in a text node,
//! `&`, `<` and `>` become entities; in a quoted attribute, `"` does too.

use vstd::prelude::*;

verus! {

/// What one character of text becomes in an HTML text node: `&`, `<` and
/// `>` become entities, every other character stays.
pub open spec fn escaped_char(c: char) -> Seq<char> {
    if c == '&' {
        "&amp;"@
    } else if c == '<' {
        "&lt;"@
    } else if c == '>' {
        "&gt;"@
    } else {
        seq![c]
    }
}

/// `s` escaped for an HTML text node.
pub open spec fn html_text_escaped(s: Seq<char>) -> Seq<char>
    decreases s.len(),
{
    if s.len() == 0 {
        Seq::empty()
    } else {
        html_text_escaped(s.drop_last()) + escaped_char(s.last())
    }
}

/// What one character becomes in a quoted HTML attribute: as in a text
/// node, and `"` becomes `&quot;`.
pub open spec fn attribute_escaped_char(c: char) -> Seq<char> {
    if c == '"' {
        "&quot;"@
    } else {
        escaped_char(c)
    }
}

/// `s` escaped for a quoted HTML attribute.
pub open spec fn html_attribute_escaped(s: Seq<char>) -> Seq<char>
    decreases s.len(),
{
    if s.len() == 0 {
        Seq::empty()
    } else {
        html_attribute_escaped(s.drop_last()) + attribute_escaped_char(s.last())
    }
}

/// `htmlize::escape_text`: `s` with `&`, `<` and `>` replaced by `&amp;`,
/// `&lt;` and `&gt;`, every other character kept, as htmlize documents it.
#[verifier::external_body]
pub(crate) fn escape_text(s: &str) -> (escaped: String)
    ensures
        escaped@ == html_text_escaped(s@),
{
    htmlize::escape_text(s).into_owned()
}

/// `htmlize::escape_attribute`: `s` with `&`, `<`, `>` and `"` replaced by
/// `&amp;`, `&lt;`, `&gt;` and `&quot;`, every other character kept, as
/// htmlize documents it.
#[verifier::external_body]
pub(crate) fn escape_attribute(s: &str) -> (escaped: String)
    ensures
        escaped@ == html_attribute_escaped(s@),
{
    htmlize::escape_attribute(s).into_owned()
}

/// Text escaped for a text node holds no `<` or `>`: it cannot open or
/// close a tag.
pub proof fn lemma_escaped_text_has_no_tags(s: Seq<char>)
    ensures
        forall|i: int| 0 <= i < html_text_escaped(s).len() ==> {
            &&& #[trigger] html_text_escaped(s)[i] != '<'
            &&& html_text_escaped(s)[i] != '>'
        },
    decreases s.len(),
{
    reveal_strlit("&amp;");
    reveal_strlit("&lt;");
    reveal_strlit("&gt;");
    if s.len() > 0 {
        lemma_escaped_text_has_no_tags(s.drop_last());
        let head = html_text_escaped(s.drop_last());
        let tail = escaped_char(s.last());
        assert forall|i: int| 0 <= i < html_text_escaped(s).len() implies {
            &&& #[trigger] html_text_escaped(s)[i] != '<'
            &&& html_text_escaped(s)[i] != '>'
        } by {
            if i < head.len() {
                assert(html_text_escaped(s)[i] == head[i]);
            } else {
                assert(html_text_escaped(s)[i] == tail[i - head.len()]);
            }
        }
    }
}

/// Text escaped for a quoted attribute holds no `<`, `>` or `"`: it cannot
/// end the attribute or open a tag.
pub proof fn lemma_escaped_attribute_has_no_quotes(s: Seq<char>)
    ensures
        forall|i: int| 0 <= i < html_attribute_escaped(s).len() ==> {
            &&& #[trigger] html_attribute_escaped(s)[i] != '<'
            &&& html_attribute_escaped(s)[i] != '>'
            &&& html_attribute_escaped(s)[i] != '"'
        },
    decreases s.len(),
{
    reveal_strlit("&amp;");
    reveal_strlit("&lt;");
    reveal_strlit("&gt;");
    reveal_strlit("&quot;");
    if s.len() > 0 {
        lemma_escaped_attribute_has_no_quotes(s.drop_last());
        let head = html_attribute_escaped(s.drop_last());
        let tail = attribute_escaped_char(s.last());
        assert forall|i: int| 0 <= i < html_attribute_escaped(s).len() implies {
            &&& #[trigger] html_attribute_escaped(s)[i] != '<'
            &&& html_attribute_escaped(s)[i] != '>'
            &&& html_attribute_escaped(s)[i] != '"'
        } by {
            if i < head.len() {
                assert(html_attribute_escaped(s)[i] == head[i]);
            } else {
                assert(html_attribute_escaped(s)[i] == tail[i - head.len()]);
            }
        }
    }
}

/// Text without `&`, `<` and `>` is left as it is.
pub proof fn lemma_plain_text_unchanged(s: Seq<char>)
    requires
        forall|i: int| 0 <= i < s.len() ==> #[trigger] s[i] != '&' && s[i] != '<' && s[i] != '>',
    ensures
        html_text_escaped(s) == s,
    decreases s.len(),
{
    if s.len() > 0 {
        lemma_plain_text_unchanged(s.drop_last());
        assert(s.drop_last().push(s.last()) =~= s);
        assert(s[s.len() - 1] == s.last());
    }
}

} // verus!
