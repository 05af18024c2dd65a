//! The HTML document a toast's text is rendered from.

use vstd::prelude::*;
use vstd::string::*;

verus! {

/// What `markdown::to_html` makes of a text.
pub uninterp spec fn markdown_html(text: Seq<char>) -> Seq<char>;

/// Relies on `markdown::to_html`: the CommonMark rendering of a text, which
/// depends on the text alone.
#[verifier::external_body]
fn markdown_to_html(text: &str) -> (r: String)
    ensures
        r@ == markdown_html(text@),
{
    markdown::to_html(text)
}

pub open spec fn digit_char(d: int) -> char {
    if d == 0 {
        '0'
    } else if d == 1 {
        '1'
    } else if d == 2 {
        '2'
    } else if d == 3 {
        '3'
    } else if d == 4 {
        '4'
    } else if d == 5 {
        '5'
    } else if d == 6 {
        '6'
    } else if d == 7 {
        '7'
    } else if d == 8 {
        '8'
    } else {
        '9'
    }
}

/// The decimal digits of `n`, most significant first, without leading zeros.
pub open spec fn decimal(n: nat) -> Seq<char>
    decreases n,
{
    if n < 10 {
        seq![digit_char(n as int)]
    } else {
        decimal(n / 10) + seq![digit_char((n % 10) as int)]
    }
}

/// The document around an HTML fragment: centred caption text of
/// `font_size` pixels.
pub open spec fn label_document(html: Seq<char>, font_size: nat) -> Seq<char> {
    "<html><head><meta charset=\"utf-8\"/><style>body { font: caption; font-size: "@
        + decimal(font_size)
        + "px; text-align: center} p { display: inline-block }</style></head><body>"@ + html
        + "</body></html>"@
}

fn digit_str(d: u64) -> (r: &'static str)
    requires
        d < 10,
    ensures
        r@ == seq![digit_char(d as int)],
{
    proof {
        reveal_strlit("0");
        reveal_strlit("1");
        reveal_strlit("2");
        reveal_strlit("3");
        reveal_strlit("4");
        reveal_strlit("5");
        reveal_strlit("6");
        reveal_strlit("7");
        reveal_strlit("8");
        reveal_strlit("9");
    }
    if d == 0 {
        "0"
    } else if d == 1 {
        "1"
    } else if d == 2 {
        "2"
    } else if d == 3 {
        "3"
    } else if d == 4 {
        "4"
    } else if d == 5 {
        "5"
    } else if d == 6 {
        "6"
    } else if d == 7 {
        "7"
    } else if d == 8 {
        "8"
    } else {
        "9"
    }
}

fn append_decimal(s: &mut String, n: u64)
    ensures
        final(s)@ == old(s)@ + decimal(n as nat),
    decreases n,
{
    if n >= 10 {
        append_decimal(s, n / 10);
    }
    s.append(digit_str(n % 10));
    assert(final(s)@ =~= old(s)@ + decimal(n as nat));
}

/// Wraps an HTML fragment into the label document.
pub fn wrap_label(html: &str, font_size: u64) -> (r: String)
    ensures
        r@ == label_document(html@, font_size as nat),
{
    let mut r = String::new();
    r.append("<html><head><meta charset=\"utf-8\"/><style>body { font: caption; font-size: ");
    append_decimal(&mut r, font_size);
    r.append("px; text-align: center} p { display: inline-block }</style></head><body>");
    r.append(html);
    r.append("</body></html>");
    r
}

/// The label document of a Markdown message.
pub fn format_label(message: &str, font_size: u64) -> (r: String)
    ensures
        r@ == label_document(markdown_html(message@), font_size as nat),
{
    let html = markdown_to_html(message);
    wrap_label(html.as_str(), font_size)
}

} // verus!
