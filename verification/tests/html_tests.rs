use northmail::html_text::{strip_html_checked, strip_html_for_display};
use northmail::links::{rewrite_href, rewrite_links_for_external_open};

#[test]
fn html_becomes_plain_text() {
    let html = "<html><head><style>p { color: red; }</style></head><body><p>Hello&nbsp;world</p><div>A &amp; B &lt;x&gt;</div><script>var x = 1;</script>done</body></html>";
    assert_eq!(strip_html_for_display(html), "Hello world\nA &B <x>\ndone");
}

#[test]
fn whitespace_and_breaks_collapse() {
    assert_eq!(strip_html_for_display("  a   b\t\tc  "), "a b c");
    assert_eq!(strip_html_for_display("one<br>two<br/><br />three"), "one\ntwo\nthree");
    assert_eq!(strip_html_for_display("<p></p><p>x</p>"), "x");
    assert_eq!(strip_html_for_display("it&#39;s &quot;q&quot; &apos;a&apos; &bogus;"), "it's \"q\" 'a' &bogus;");
    assert_eq!(strip_html_for_display("<STYLE>hidden</STYLE>shown"), "shown");
    assert_eq!(strip_html_for_display(""), "");
}

#[test]
fn hrefs_are_rewritten() {
    assert_eq!(rewrite_href("https://a.b/c?d=e f", '"'), "href=\"northmail-link://open?https%3A%2F%2Fa.b%2Fc%3Fd%3De%20f\"");
    assert_eq!(rewrite_href("#top", '\''), "href='#top'");
    assert_eq!(rewrite_href("", '"'), "href=\"\"");
    assert_eq!(rewrite_href("javascript:alert(1)", '"'), "href=\"#\"");
    assert_eq!(rewrite_href("mailto:x@y.z", '\''), "href='northmail-link://open?mailto%3Ax%40y.z'");
}

#[test]
fn links_in_html_go_outside() {
    let html = "<a HREF = \"http://x.y/\">a</a> <a href='/local'>b</a> <a href=\"#sec\">c</a>";
    assert_eq!(
        rewrite_links_for_external_open(html),
        "<a href=\"northmail-link://open?http%3A%2F%2Fx.y%2F\">a</a> <a href='#'>b</a> <a href=\"#sec\">c</a>"
    );
}

#[test]
fn test_strip_html_non_ascii() {
    assert_eq!(strip_html_for_display("<p>Café</p>"), "Café");
    assert_eq!(strip_html_for_display("Grüße"), "Grüße");
    assert_eq!(strip_html_checked("<p>Café au lait</p><p>Crème</p>").as_deref(), Some("Café au lait\nCrème"));
    assert_eq!(strip_html_checked("<p>ééééé</p>"), None);
}

#[test]
fn test_plain_text_passes_through() {
    assert_eq!(strip_html_for_display("Plain text, one space each."), "Plain text, one space each.");
    assert_eq!(strip_html_checked("x").as_deref(), Some("x"));
}
