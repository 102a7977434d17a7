use synapse::telegram::chunk::{chunk_html, TELEGRAM_MSG_LIMIT};
use synapse::telegram::format::{
    escape_html, md_to_telegram_html, render_markdown_events, MdEvent, MdTag, MdTagEnd,
};

#[test]
fn test_escape_html_ampersand() {
    assert_eq!(escape_html("a&b"), "a&amp;b");
}

#[test]
fn test_escape_html_angle_brackets() {
    assert_eq!(escape_html("<tag>"), "&lt;tag&gt;");
}

#[test]
fn test_escape_html_no_change() {
    assert_eq!(escape_html("hello world"), "hello world");
}

#[test]
fn test_escape_html_mixed() {
    assert_eq!(escape_html("<a href=\"x&y\">"), "&lt;a href=\"x&amp;y\"&gt;");
}

#[test]
fn test_md_to_telegram_html_empty() {
    assert_eq!(md_to_telegram_html(""), "");
}

#[test]
fn test_md_to_telegram_html_plain_text() {
    let result = md_to_telegram_html("Hello, world!");
    assert!(result.contains("Hello, world!"));
}

#[test]
fn test_md_to_telegram_html_bold() {
    let result = md_to_telegram_html("**bold**");
    assert!(result.contains("<b>bold</b>"));
}

#[test]
fn test_md_to_telegram_html_italic() {
    let result = md_to_telegram_html("_italic_");
    assert!(result.contains("<i>italic</i>"));
}

#[test]
fn test_md_to_telegram_html_strikethrough() {
    let result = md_to_telegram_html("~~strike~~");
    assert!(result.contains("<s>strike</s>"));
}

#[test]
fn test_md_to_telegram_html_inline_code() {
    let result = md_to_telegram_html("`code`");
    assert!(result.contains("<code>code</code>"));
}

#[test]
fn test_md_to_telegram_html_fenced_code_with_lang() {
    let md = "```rust\nfn main() {}\n```";
    let result = md_to_telegram_html(md);
    assert!(result.contains("<pre><code class=\"language-rust\">"));
    assert!(result.contains("fn main() {}"));
    assert!(result.contains("</code></pre>"));
}

#[test]
fn test_md_to_telegram_html_fenced_code_no_lang() {
    let md = "```\nhello\n```";
    let result = md_to_telegram_html(md);
    assert!(result.contains("<pre><code>"));
    assert!(result.contains("hello"));
    assert!(result.contains("</code></pre>"));
}

#[test]
fn test_md_to_telegram_html_link() {
    let md = "[Rust](https://www.rust-lang.org)";
    let result = md_to_telegram_html(md);
    assert!(result.contains("<a href=\"https://www.rust-lang.org\">Rust</a>"));
}

#[test]
fn test_md_to_telegram_html_heading() {
    let result = md_to_telegram_html("# Title");
    assert!(result.contains("<b>"));
    assert!(result.contains("Title"));
    assert!(result.contains("</b>"));
}

#[test]
fn test_md_to_telegram_html_blockquote() {
    let result = md_to_telegram_html("> quote");
    assert!(result.contains("<blockquote>"));
    assert!(result.contains("quote"));
    assert!(result.contains("</blockquote>"));
}

#[test]
fn test_md_to_telegram_html_unordered_list() {
    let md = "- item one\n- item two";
    let result = md_to_telegram_html(md);
    assert!(result.contains("• item one"));
    assert!(result.contains("• item two"));
}

#[test]
fn test_md_to_telegram_html_ordered_list() {
    let md = "1. first\n2. second";
    let result = md_to_telegram_html(md);
    assert!(result.contains("1. first"));
    assert!(result.contains("2. second"));
}

#[test]
fn test_md_to_telegram_html_task_list() {
    let md = "- [x] done\n- [ ] todo";
    let result = md_to_telegram_html(md);
    assert!(result.contains("[x]"));
    assert!(result.contains("[ ]"));
}

#[test]
fn test_md_to_telegram_html_nested_formatting() {
    let md = "**bold _italic_ bold**";
    let result = md_to_telegram_html(md);
    assert!(result.contains("<b>"));
    assert!(result.contains("<i>italic</i>"));
    assert!(result.contains("</b>"));
}

#[test]
fn test_md_to_telegram_html_html_escaping_in_text() {
    let md = "Use `<b>` tags";
    let result = md_to_telegram_html(md);
    assert!(result.contains("&lt;b&gt;"));
}

#[test]
fn test_md_to_telegram_html_html_escaping_in_code_block() {
    let md = "```\n<script>alert(1)</script>\n```";
    let result = md_to_telegram_html(md);
    assert!(result.contains("&lt;script&gt;"));
    assert!(!result.contains("<script>"));
}

#[test]
fn md_table_renders_as_padded_pre_block() {
    let md = "| a | bb |\n|---|---|\n| ccc | d |";
    let result = md_to_telegram_html(md);
    assert_eq!(result, "<pre>a   | bb\n----+---\nccc | d \n</pre>");
}

#[test]
fn md_paragraphs_and_image() {
    let result = md_to_telegram_html("one\n\ntwo");
    assert_eq!(result, "one\n\ntwo");
    let result = md_to_telegram_html("![alt](http://x/y.png \"T\")");
    assert_eq!(result, "[image: T](http://x/y.png)alt");
}

#[test]
fn render_events_exact_output() {
    let events = vec![
        MdEvent::Start(MdTag::List(Some(3))),
        MdEvent::Start(MdTag::Item),
        MdEvent::Text("a<b".to_string()),
        MdEvent::End(MdTagEnd::Item),
        MdEvent::Start(MdTag::Item),
        MdEvent::Text("c".to_string()),
        MdEvent::End(MdTagEnd::Item),
        MdEvent::End(MdTagEnd::List),
        MdEvent::Rule,
    ];
    assert_eq!(render_markdown_events(&events), "3. a&lt;b\n4. c\n\n---");
    let empty_lang = vec![MdEvent::Start(MdTag::CodeBlock(Some(String::new()))), MdEvent::End(MdTagEnd::CodeBlock)];
    assert_eq!(render_markdown_events(&empty_lang), "<pre><code></code></pre>");
}

#[test]
fn test_chunk_html_short_message() {
    let html = "<b>Hello</b>";
    let chunks = chunk_html(html);
    assert_eq!(chunks.len(), 1);
    assert_eq!(chunks[0], html);
}

#[test]
fn test_chunk_html_splits_at_paragraph_boundary() {
    let para1 = "a".repeat(2500);
    let para2 = "b".repeat(2500);
    let html = format!("{}\n\n{}", para1, para2);
    let chunks = chunk_html(&html);
    assert!(chunks.len() >= 2);
    for chunk in &chunks {
        assert!(chunk.len() <= TELEGRAM_MSG_LIMIT);
    }
}

#[test]
fn test_chunk_html_closes_and_reopens_tags() {
    let inner = "x".repeat(4100);
    let html = format!("<b>{}</b>", inner);
    let chunks = chunk_html(&html);
    assert!(chunks.len() >= 2);
    for chunk in &chunks {
        assert!(chunk.len() <= TELEGRAM_MSG_LIMIT, "chunk too long: {}", chunk.len());
    }
    assert!(chunks[0].ends_with("</b>"), "first chunk should close <b>");
    assert!(chunks[1].starts_with("<b>"), "second chunk should reopen <b>");
}

#[test]
fn test_chunk_html_never_splits_inside_tag() {
    let url = "https://example.com/".to_string() + &"path/".repeat(500);
    let html = format!("<a href=\"{}\">link text here</a>", url);
    let chunks = chunk_html(&html);
    for chunk in &chunks {
        assert!(chunk.len() <= TELEGRAM_MSG_LIMIT);
        let open = chunk.chars().filter(|&c| c == '<').count();
        let close = chunk.chars().filter(|&c| c == '>').count();
        assert_eq!(open, close, "unbalanced angle brackets in chunk: {}", chunk);
    }
}

#[test]
fn test_chunk_html_long_code_block() {
    let code = "x".repeat(5000);
    let html = format!("<pre><code>{}</code></pre>", code);
    let chunks = chunk_html(&html);
    assert!(chunks.len() >= 2);
    for chunk in &chunks {
        assert!(chunk.len() <= TELEGRAM_MSG_LIMIT);
    }
}

#[test]
fn test_chunk_html_multibyte_text() {
    let cyrillic = "Привет ".repeat(400);
    let chunks = chunk_html(&cyrillic);
    for chunk in &chunks {
        assert!(chunk.len() <= TELEGRAM_MSG_LIMIT);
        let _ = chunk.chars().count();
    }
}

#[test]
fn test_chunk_html_emoji_boundary() {
    let emoji = "😀".repeat(1025);
    let chunks = chunk_html(&emoji);
    assert!(chunks.len() >= 2);
    for chunk in &chunks {
        assert!(chunk.len() <= TELEGRAM_MSG_LIMIT);
        let _ = chunk.chars().count();
    }
}

#[test]
fn chunk_html_plain_text_keeps_everything_but_dropped_newlines() {
    let html = format!("{}\n\n{}", "a".repeat(3000), "b".repeat(3000));
    let chunks = chunk_html(&html);
    assert_eq!(chunks, vec![format!("{}\n\n", "a".repeat(3000)), "b".repeat(3000)]);
}

#[test]
fn plain_text_chunks_each_fit_the_limit() {
    let text = format!("{} {}\n\n{}", "é".repeat(3000), "word ".repeat(900), "x".repeat(5000));
    let chunks = chunk_html(&text);
    assert!(chunks.len() > 1);
    for c in &chunks {
        assert!(c.len() <= TELEGRAM_MSG_LIMIT, "chunk of {} bytes", c.len());
    }
    let joined: String = chunks.concat();
    assert_eq!(joined.replace('\n', ""), text.replace('\n', ""));
}

fn assert_chunks_whole(chunks: &[String]) {
    for chunk in chunks {
        assert!(chunk.len() <= TELEGRAM_MSG_LIMIT, "chunk too long: {}", chunk.len());
        let open = chunk.chars().filter(|&c| c == '<').count();
        let close = chunk.chars().filter(|&c| c == '>').count();
        assert_eq!(open, close, "unbalanced angle brackets in chunk: {}", chunk);
    }
}

#[test]
fn chunk_html_closing_tags_never_push_a_chunk_over_the_limit() {
    let html = "<b><i>".to_string() + &"y".repeat(4086) + "</i>" + &"z".repeat(10) + "</b>";
    let chunks = chunk_html(&html);
    assert!(chunks.len() >= 2);
    assert_chunks_whole(&chunks);
    assert!(chunks[0].starts_with("<b><i>"));
    assert!(chunks[0].ends_with("</i></b>"));
}

#[test]
fn chunk_html_hard_cut_stays_outside_tags() {
    let html = "x".repeat(4090) + "<b>y</b>" + &"z".repeat(100);
    let chunks = chunk_html(&html);
    assert!(chunks.len() >= 2);
    assert_chunks_whole(&chunks);
    assert!(!chunks[0].ends_with("<b"));
    let joined: String = chunks.concat();
    assert_eq!(joined.matches('x').count(), 4090);
    assert_eq!(joined.matches('z').count(), 100);
}

#[test]
fn chunk_html_tags_filling_the_limit_still_give_whole_tags() {
    let tag = "<a href=\"".to_string() + &"h".repeat(3000) + "\">";
    let html = tag + &"w ".repeat(1500) + "</a>";
    let chunks = chunk_html(&html);
    for chunk in &chunks {
        let open = chunk.chars().filter(|&c| c == '<').count();
        let close = chunk.chars().filter(|&c| c == '>').count();
        assert_eq!(open, close, "unbalanced angle brackets in chunk: {}", chunk);
    }
}

#[test]
fn escape_html_escapes_entities_so_they_read_back() {
    assert_eq!(escape_html("&lt;"), "&amp;lt;");
    assert_ne!(escape_html("&lt;"), escape_html("<"));
    assert_eq!(escape_html("<&>"), "&lt;&amp;&gt;");
}

#[test]
fn markdown_html_has_balanced_tags_in_every_chunk() {
    let md = format!(
        "# Title\n\n**bold {}** and *it* `a<b`\n\n[link](http://x.org/?a=1&b=2)\n\n```rust\n{}\n```\n",
        "word ".repeat(900),
        "let x = 1 < 2;\n".repeat(300)
    );
    let html = md_to_telegram_html(&md);
    let open = html.chars().filter(|&c| c == '<').count();
    let close = html.chars().filter(|&c| c == '>').count();
    assert_eq!(open, close);
    let chunks = chunk_html(&html);
    assert!(chunks.len() >= 2);
    for chunk in &chunks {
        assert!(chunk.len() <= TELEGRAM_MSG_LIMIT, "chunk too long: {}", chunk.len());
        let open = chunk.chars().filter(|&c| c == '<').count();
        let close = chunk.chars().filter(|&c| c == '>').count();
        assert_eq!(open, close, "unbalanced angle brackets in chunk: {}", chunk);
    }
}
