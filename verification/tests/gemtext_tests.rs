use gemini_client::{Gemtext, GemtextToken, TokenPreformatted};

fn plain() -> TokenPreformatted<'static> {
    TokenPreformatted {
        preformatted: false,
        alt_text: None,
    }
}

#[test]
fn gemtext_plain_text_lines() {
    let mut gt = Gemtext::new("hello\nworld");
    assert_eq!(gt.next(), Some(GemtextToken::Text("hello", plain())));
    assert_eq!(gt.next(), Some(GemtextToken::Text("world", plain())));
    assert_eq!(gt.next(), None);
}

#[test]
fn gemtext_crlf_line_endings_are_stripped() {
    let mut gt = Gemtext::new("one\r\ntwo\r\n");
    assert_eq!(gt.next(), Some(GemtextToken::Text("one", plain())));
    assert_eq!(gt.next(), Some(GemtextToken::Text("two", plain())));
    assert_eq!(gt.next(), None);
}

#[test]
fn gemtext_headings() {
    let mut gt = Gemtext::new("# One\n## Two\n### Three\n#### Four");
    assert_eq!(gt.next(), Some(GemtextToken::Heading("One", 1)));
    assert_eq!(gt.next(), Some(GemtextToken::Heading("Two", 2)));
    assert_eq!(gt.next(), Some(GemtextToken::Heading("Three", 3)));
    // four or more marks is no heading
    assert_eq!(gt.next(), Some(GemtextToken::Text("#### Four", plain())));
    assert_eq!(gt.next(), None);
}

#[test]
fn gemtext_heading_level_is_the_leading_run() {
    // the level is the length of the leading `#` run alone; `#` characters
    // further into the line are ordinary text
    let mut gt = Gemtext::new("#a#\n# a ## b #\n## x # y");
    assert_eq!(gt.next(), Some(GemtextToken::Heading("a#", 1)));
    assert_eq!(gt.next(), Some(GemtextToken::Heading("a ## b #", 1)));
    assert_eq!(gt.next(), Some(GemtextToken::Heading("x # y", 2)));
    assert_eq!(gt.next(), None);
}

#[test]
fn gemtext_links() {
    let mut gt = Gemtext::new("=> gemini://example.org Home page\n=> gemini://example.org\n=>nospace");
    assert_eq!(
        gt.next(),
        Some(GemtextToken::Link("gemini://example.org", Some("Home page")))
    );
    assert_eq!(gt.next(), Some(GemtextToken::Link("gemini://example.org", None)));
    // `=>` without whitespace after it is not a link
    assert_eq!(gt.next(), Some(GemtextToken::Text("=>nospace", plain())));
    assert_eq!(gt.next(), None);
}

#[test]
fn gemtext_link_accepts_tabs() {
    let mut gt = Gemtext::new("=>\tgemini://example.org\t \tname here");
    assert_eq!(
        gt.next(),
        Some(GemtextToken::Link("gemini://example.org", Some("name here")))
    );
}

#[test]
fn gemtext_fence_toggles_and_consumes_the_next_line() {
    let mut gt = Gemtext::new("```alt text\ninside\n# still inside\n```\n# after");
    // the fence line is consumed together with the line after it
    assert_eq!(
        gt.next(),
        Some(GemtextToken::Text(
            "inside",
            TokenPreformatted {
                preformatted: true,
                alt_text: Some("alt text"),
            }
        ))
    );
    // markup is inert inside the block
    assert_eq!(
        gt.next(),
        Some(GemtextToken::Text(
            "# still inside",
            TokenPreformatted {
                preformatted: true,
                alt_text: Some("alt text"),
            }
        ))
    );
    // the closing fence consumes the following line too; the alt-text of
    // the opening fence is left in place on the carried state
    assert_eq!(
        gt.next(),
        Some(GemtextToken::Heading("after", 1))
    );
    assert_eq!(gt.next(), None);
}

#[test]
fn gemtext_fence_at_end_of_document() {
    let mut gt = Gemtext::new("```");
    assert_eq!(gt.next(), Some(GemtextToken::Text("```", plain())));
    assert_eq!(gt.next(), None);
}

#[test]
fn gemtext_empty_document() {
    let mut gt = Gemtext::new("");
    assert_eq!(gt.next(), None);
}
