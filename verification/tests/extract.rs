use ai_search_demo::extract::{format_content_preview, text_format, TextFormat};

fn by_bytes_and_chars(content: &str) -> String {
    let cleaned = content.trim();
    if cleaned.is_empty() {
        return "[无文本内容]".to_string();
    }
    if cleaned.len() <= 200 {
        return cleaned.to_string();
    }
    let ends = ['。', '！', '？', '.', '!', '?', '\n', '；', ';'];
    let mut cut = None;
    for i in (50..=200).rev() {
        if let Some(c) = cleaned.chars().nth(i) {
            if ends.contains(&c) {
                cut = Some(i + 1);
                break;
            }
        }
    }
    if cut.is_none() {
        for i in (150..=200).rev() {
            if let Some(c) = cleaned.chars().nth(i) {
                if c.is_whitespace() || c == '，' || c == '。' || c == '；' {
                    cut = Some(i);
                    break;
                }
            }
        }
    }
    let mut end = cut.unwrap_or(200);
    while end > 0 && !cleaned.is_char_boundary(end) {
        end -= 1;
    }
    format!("{}...", &cleaned[..end])
}

#[test]
fn preview_of_nothing() {
    assert_eq!(format_content_preview(""), "[无文本内容]");
    assert_eq!(format_content_preview("  \n\t "), "[无文本内容]");
}

#[test]
fn short_text_is_shown_whole() {
    assert_eq!(format_content_preview("  hello world \n"), "hello world");
    let exactly = "a".repeat(200);
    assert_eq!(format_content_preview(&exactly), exactly);
}

#[test]
fn long_text_is_cut_behind_a_sentence_end() {
    let text = format!("{}. {}", "a".repeat(120), "b".repeat(200));
    assert_eq!(format_content_preview(&text), format!("{}....", "a".repeat(120)));
}

#[test]
fn long_text_is_cut_at_a_word_break() {
    let text = format!("{} {}", "a".repeat(180), "b".repeat(200));
    assert_eq!(format_content_preview(&text), format!("{}...", "a".repeat(180)));
}

#[test]
fn long_text_without_marks_is_cut_at_the_limit() {
    let text = "a".repeat(300);
    assert_eq!(format_content_preview(&text), format!("{}...", "a".repeat(200)));
}

#[test]
fn cut_respects_character_boundaries() {
    let text = "中".repeat(100);
    assert_eq!(format_content_preview(&text), format!("{}...", "中".repeat(66)));
}

#[test]
fn previews_agree_with_the_byte_and_character_rule() {
    let mut samples: Vec<String> = Vec::new();
    for n in [0usize, 1, 49, 50, 51, 149, 150, 151, 199, 200, 201, 202, 250, 400] {
        samples.push("x".repeat(n));
        samples.push("é".repeat(n));
        samples.push("中".repeat(n));
        samples.push("😀".repeat(n));
        for mark in [".", "。", " ", "，", ";", "\n", "\u{3000}", "？"] {
            for at in [0usize, 49, 50, 100, 149, 150, 199, 200, 201] {
                if at <= n {
                    samples.push(format!("{}{}{}", "y".repeat(at), mark, "z".repeat(n - at)));
                    samples.push(format!("{}{}{}", "文".repeat(at), mark, "字".repeat(n - at)));
                    samples.push(format!("{}{}{}", "é".repeat(at), mark, "q".repeat(n - at)));
                }
            }
        }
    }
    samples.push(format!("  {}  ", "padded text. ".repeat(40)));
    for s in samples {
        assert_eq!(format_content_preview(&s), by_bytes_and_chars(&s), "{:?}", s);
    }
}

#[test]
fn formats_by_extension() {
    assert_eq!(text_format("txt"), Some(TextFormat::Plain));
    assert_eq!(text_format("md"), Some(TextFormat::Plain));
    assert_eq!(text_format("rs"), Some(TextFormat::Plain));
    assert_eq!(text_format("pdf"), Some(TextFormat::Pdf));
    assert_eq!(text_format("PDF"), None);
    assert_eq!(text_format("docx"), None);
    assert_eq!(text_format(""), None);
}
