use typhon::markdown::MarkdownStreamProcessor;
use typhon::markdown::{format_cell_text, get_visible_len};
use typhon::render::{Span, Tone};

fn text_of(spans: &[Span]) -> String {
    let mut s = String::new();
    for span in spans {
        s.push_str(&span.text);
    }
    s
}

#[test]
fn test_visible_len() {
    assert_eq!(get_visible_len("**hello**", false), 5);
    assert_eq!(get_visible_len("`code`", false), 4);
    assert_eq!(get_visible_len("*italic*", false), 6);
    assert_eq!(get_visible_len("~~strike~~", false), 6);
    assert_eq!(get_visible_len("plain", false), 5);
    assert_eq!(get_visible_len("`code`", true), 6);
}

#[test]
fn test_markdown_stream_processor() {
    let mut processor = MarkdownStreamProcessor::new(80);

    let header = processor.write_chunk("## Encabezado\n");
    assert_eq!(text_of(&header), "Encabezado\n");
    assert_eq!(header[0].style.tone, Tone::Cyan);
    assert!(header[0].style.bold);

    let rule = processor.write_chunk("---\n");
    assert_eq!(text_of(&rule), format!("{}\n", "─".repeat(78)));

    let item = text_of(&processor.write_chunk("- Elemento **negrita**\n"));
    assert!(item.starts_with("• "));
    assert!(item.contains("Elemento"));
    assert!(item.contains("negrita"));
    assert!(!item.contains("**"));

    let quote = text_of(&processor.write_chunk("> Cita con `código`\n"));
    assert!(quote.starts_with("│ "));
    assert!(quote.contains("código"));
    assert!(!quote.contains('`'));

    let code = text_of(&processor.write_chunk("```rust\nfn main() {}\n```\n"));
    assert!(code.starts_with("╭── [ rust ] "));
    assert!(code.contains("fn"));
    assert!(code.contains("main()"));
    assert!(code.contains('╰'));
    assert!(!code.contains("```"));

    assert_eq!(text_of(&processor.flush_final()), "\n");
}

#[test]
fn test_table_rendering() {
    let mut processor = MarkdownStreamProcessor::new(80);
    let head = text_of(&processor.write_chunk("| Columna A | Columna B |\n"));
    assert!(head.starts_with('┌'));
    // Spaces are not kept in the line buffer, so cells show their words joined.
    assert!(head.contains("ColumnaA"));
    assert!(head.contains("ColumnaB"));
    let sep = text_of(&processor.write_chunk("| --- | --- |\n"));
    assert!(sep.starts_with('├'));
    let row = text_of(&processor.write_chunk("| Dato 1 | Dato 2 |\n"));
    assert!(row.contains("Dato1"));
    assert!(row.contains("Dato2"));
    let end = text_of(&processor.flush_final());
    assert!(end.starts_with('└'));
}

#[test]
fn test_large_table_constrained() {
    let mut processor = MarkdownStreamProcessor::new(80);
    let large_table = "| Col 1 | Col 2 | Col 3 | Col 4 | Col 5 | Col 6 |\n\
                       | --- | --- | --- | --- | --- | --- |\n\
                       | Very Long Content That Exceeds Width | Short | Multi Word Text | Status Value | 100.00 | Active |\n";
    let out = text_of(&processor.write_chunk(large_table));
    for line in out.lines() {
        assert!(line.chars().count() <= 80);
    }
    assert!(out.contains('…'));
    let end = text_of(&processor.flush_final());
    assert!(end.starts_with('└'));
}

#[test]
fn chunks_compose_like_one_write() {
    let whole = "Hola **mundo** y `código`\n- uno\n";
    let mut a = MarkdownStreamProcessor::new(60);
    let all = text_of(&a.write_chunk(whole));
    let mut b = MarkdownStreamProcessor::new(60);
    let mut parts = String::new();
    for piece in ["Ho", "la **mu", "ndo** y `có", "digo`\n- ", "uno\n"] {
        parts.push_str(&text_of(&b.write_chunk(piece)));
    }
    assert_eq!(all, parts);
    assert_eq!(text_of(&a.flush_final()), text_of(&b.flush_final()));
}

#[test]
fn reasoning_is_introduced_once_and_answer_starts_on_a_new_line() {
    let mut p = MarkdownStreamProcessor::new(80);
    let first = text_of(&p.write_reasoning_chunk("pienso"));
    assert_eq!(first, "Thought:\npienso");
    let more = text_of(&p.write_reasoning_chunk(" más"));
    assert_eq!(more, " más");
    let answer = text_of(&p.write_chunk("Listo\n"));
    assert_eq!(answer, "\nListo\n");
}

#[test]
fn flush_closes_an_open_code_block() {
    let mut p = MarkdownStreamProcessor::new(40);
    let _ = p.write_chunk("```\nlet x = 1;");
    let end = text_of(&p.flush_final());
    assert!(end.contains("1;"));
    assert!(end.contains('╰'));
    assert!(end.ends_with('\n'));
}

#[test]
fn narrow_terminals_use_twenty_columns() {
    let mut p = MarkdownStreamProcessor::new(5);
    let out = text_of(&p.write_chunk("---\n"));
    assert_eq!(out, format!("{}\n", "─".repeat(20)));
}

#[test]
fn cells_fit_their_column() {
    assert_eq!(format_cell_text("abc", 10), ("abc".to_string(), 3));
    let (t, w) = format_cell_text("abcdefghij", 5);
    assert_eq!(t, "abcd…");
    assert_eq!(w, 5);
}
