//! Rendering of comment bodies and derivation of identity keys.
//!
//! The digests, the markup renderer and the sanitizer are outside code; each is reached through
//! one function below whose result is named by a spec function of its input.

use vstd::prelude::*;

verus! {

/// The SHA-1 digest of the UTF-8 bytes of `s`, as 40 lowercase hexadecimal digits.
pub uninterp spec fn sha1_hex_of(s: Seq<char>) -> Seq<char>;

/// The MD5 digest of the UTF-8 bytes of `s`, as 32 lowercase hexadecimal digits.
pub uninterp spec fn md5_hex_of(s: Seq<char>) -> Seq<char>;

/// The HTML that the CommonMark renderer makes of `s`, with no extension enabled.
pub uninterp spec fn markdown_html_of(s: Seq<char>) -> Seq<char>;

/// The HTML that the sanitizer keeps of `html` with its default policy widened by `extra_tags`.
pub uninterp spec fn sanitized_of(html: Seq<char>, extra_tags: Seq<Seq<char>>) -> Seq<char>;

/// Whether every character of `s` is a lowercase hexadecimal digit.
pub open spec fn is_lower_hex(s: Seq<char>) -> bool {
    forall|i: int| 0 <= i < s.len() ==> ('0' <= #[trigger] s[i] <= '9' || 'a' <= s[i] <= 'f')
}

/// Relies on sha1 0.6 (`sha1_smol`): `Sha1::update` over the bytes of `s`, then `digest()`,
/// whose `Display` writes the five state words each as eight lowercase hexadecimal digits.
#[verifier::external_body]
pub(crate) fn sha1_hex(s: &str) -> (r: String)
    ensures
        r@ == sha1_hex_of(s@),
        r@.len() == 40,
        is_lower_hex(r@),
{
    let mut digest = sha1::Sha1::new();
    digest.update(s.as_bytes());
    digest.digest().to_string()
}

/// Relies on md5's `compute` over the bytes of `s`, and on the `LowerHex` formatting of its
/// 16-byte `Digest`, two lowercase hexadecimal digits per byte.
#[verifier::external_body]
pub(crate) fn md5_hex(s: &str) -> (r: String)
    ensures
        r@ == md5_hex_of(s@),
        r@.len() == 32,
        is_lower_hex(r@),
{
    format!("{:x}", md5::compute(s.as_bytes()))
}

/// Relies on pulldown-cmark: `Parser::new` (no extension) read out by `html::push_html` into an
/// empty string.
#[verifier::external_body]
fn markdown_html(s: &str) -> (r: String)
    ensures
        r@ == markdown_html_of(s@),
{
    let parser = pulldown_cmark::Parser::new(s);
    let mut html = String::new();
    pulldown_cmark::html::push_html(&mut html, parser);
    html
}

/// Relies on ammonia: `Builder::default()`, `add_tags` with `extra_tags`, then `clean` on
/// `html`, whose `Document` is written out by `to_string`. `clean` panics when an added tag is
/// one whose content the default policy strips, `script` or `style`; those are not accepted.
#[verifier::external_body]
fn sanitize_with(html: &str, extra_tags: &Vec<&str>) -> (r: String)
    requires
        forall|i: int|
            0 <= i < extra_tags@.len() ==> (#[trigger] extra_tags@[i])@ != "script"@ && extra_tags@[i]@
                != "style"@,
    ensures
        r@ == sanitized_of(html@, extra_tags@.map_values(|t: &str| t@)),
{
    let mut builder = ammonia::Builder::default();
    builder.add_tags(extra_tags.iter());
    builder.clean(html).to_string()
}

/// The body shown to clients: the stored text itself when `plain`, else its markup rendered
/// to HTML.
pub fn render_text(text: &str, plain: bool) -> (r: String)
    ensures
        r@ == if plain {
            text@
        } else {
            markdown_html_of(text@)
        },
{
    if plain {
        text.to_owned()
    } else {
        markdown_html(text)
    }
}

/// The tags that comment markup may use beyond the sanitizer's defaults.
pub open spec fn markup_tags() -> Seq<Seq<char>> {
    seq![
        "a"@, "blockquote"@, "br"@, "code"@, "del"@, "em"@, "h1"@, "h2"@, "h3"@, "h4"@, "h5"@,
        "h6"@, "hr"@, "img"@, "ins"@, "li"@, "ol"@, "p"@, "pre"@, "strong"@, "table"@, "tbody"@,
        "td"@, "th"@, "thead"@, "ul"@,
    ]
}

/// None of the [`markup_tags`] is a tag whose content the sanitizer strips.
proof fn lemma_markup_tags_keep_content()
    ensures
        forall|i: int|
            0 <= i < markup_tags().len() ==> #[trigger] markup_tags()[i] != "script"@
                && markup_tags()[i] != "style"@,
{
    reveal_strlit("script");
    reveal_strlit("style");
    reveal_strlit("a");
    reveal_strlit("blockquote");
    reveal_strlit("br");
    reveal_strlit("code");
    reveal_strlit("del");
    reveal_strlit("em");
    reveal_strlit("h1");
    reveal_strlit("h2");
    reveal_strlit("h3");
    reveal_strlit("h4");
    reveal_strlit("h5");
    reveal_strlit("h6");
    reveal_strlit("hr");
    reveal_strlit("img");
    reveal_strlit("ins");
    reveal_strlit("li");
    reveal_strlit("ol");
    reveal_strlit("p");
    reveal_strlit("pre");
    reveal_strlit("strong");
    reveal_strlit("table");
    reveal_strlit("tbody");
    reveal_strlit("td");
    reveal_strlit("th");
    reveal_strlit("thead");
    reveal_strlit("ul");
    assert forall|i: int| 0 <= i < markup_tags().len() implies #[trigger] markup_tags()[i] != "script"@
        && markup_tags()[i] != "style"@ by {
        let t = markup_tags()[i];
        assert(t.len() != 6 || t[1] != "script"@[1]);
        assert(t.len() != 5 || t[1] != "style"@[1]);
    }
}

/// Sanitizes comment HTML, keeping the [`markup_tags`] besides the sanitizer's defaults.
pub fn sanitize_html(html: &str) -> (r: String)
    ensures
        r@ == sanitized_of(html@, markup_tags()),
{
    let mut tags: Vec<&str> = Vec::new();
    tags.push("a");
    tags.push("blockquote");
    tags.push("br");
    tags.push("code");
    tags.push("del");
    tags.push("em");
    tags.push("h1");
    tags.push("h2");
    tags.push("h3");
    tags.push("h4");
    tags.push("h5");
    tags.push("h6");
    tags.push("hr");
    tags.push("img");
    tags.push("ins");
    tags.push("li");
    tags.push("ol");
    tags.push("p");
    tags.push("pre");
    tags.push("strong");
    tags.push("table");
    tags.push("tbody");
    tags.push("td");
    tags.push("th");
    tags.push("thead");
    tags.push("ul");
    proof {
        assert(tags@.map_values(|t: &str| t@) =~= markup_tags());
        lemma_markup_tags_keep_content();
        assert forall|i: int| 0 <= i < tags@.len() implies (#[trigger] tags@[i])@ != "script"@ && tags@[i]@
            != "style"@ by {
            assert(tags@[i]@ == markup_tags()[i]);
        }
    }
    sanitize_with(html, &tags)
}

/// `template` with each `{}` replaced by `key`, scanning left to right.
pub open spec fn filled(template: Seq<char>, key: Seq<char>) -> Seq<char>
    decreases template.len(),
{
    if template.len() < 2 {
        template
    } else if template[0] == '{' && template[1] == '}' {
        key + filled(template.subrange(2, template.len() as int), key)
    } else {
        seq![template[0]] + filled(template.subrange(1, template.len() as int), key)
    }
}

/// The avatar URL: `template` with each `{}` replaced by `key`.
pub fn fill_template(template: &str, key: &str) -> (r: String)
    ensures
        r@ == filled(template@, key@),
{
    let n = template.unicode_len();
    let mut out = String::new();
    let mut i: usize = 0;
    proof {
        assert(template@.subrange(0, n as int) =~= template@);
        assert(out@ + filled(template@, key@) =~= filled(template@, key@));
    }
    while i < n
        invariant
            n == template@.len(),
            i <= n,
            out@ + filled(template@.subrange(i as int, n as int), key@) == filled(template@, key@),
        decreases n - i,
    {
        let rest = Ghost(template@.subrange(i as int, n as int));
        if i + 1 < n && template.get_char(i) == '{' && template.get_char(i + 1) == '}' {
            proof {
                assert(rest@.subrange(2, rest@.len() as int) =~= template@.subrange(i + 2, n as int));
                assert(out@ + key@ + filled(template@.subrange(i + 2, n as int), key@) == out@ + (key@
                    + filled(rest@.subrange(2, rest@.len() as int), key@)));
            }
            out.append(key);
            i += 2;
        } else {
            let c = template.substring_char(i, i + 1);
            proof {
                assert(c@ =~= seq![rest@[0]]);
                if rest@.len() < 2 {
                    assert(template@.subrange(i + 1, n as int) =~= Seq::<char>::empty());
                    assert(rest@ =~= c@);
                } else {
                    assert(rest@.subrange(1, rest@.len() as int) =~= template@.subrange(i + 1, n as int));
                }
                assert(out@ + c@ + filled(template@.subrange(i + 1, n as int), key@) == out@ + (c@
                    + filled(template@.subrange(i + 1, n as int), key@)));
            }
            out.append(c);
            i += 1;
        }
    }
    proof {
        assert(template@.subrange(n as int, n as int) =~= Seq::<char>::empty());
        assert(out@ + Seq::<char>::empty() =~= out@);
    }
    out
}

} // verus!
