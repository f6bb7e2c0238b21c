use hover_popover::diagnostic::{
    diagnostic_popover_at, most_specific_diagnostic, primary_diagnostic, ContainerStyle, Diagnostic,
    DiagnosticEntry, DiagnosticSeverity,
};
use hover_popover::hover::{
    hide_hover, hover, hover_at, hover_response, request_due, reveal_delay_elapsed, show_diagnostic, show_hover,
    HoverEffect, HoverResult, HoverState, PopoverKind, HOVER_DELAY_MILLIS, HOVER_REQUEST_DELAY_MILLIS,
};
use hover_popover::markdown::{MdEvent, MdTag};
use hover_popover::render::{
    code_segments, new_paragraph, render_blocks, render_markdown_events, HoverBlock, HoverBlockKind,
};
use hover_popover::style::HighlightStyle;
use hover_popover::text::TextBuf;
use std::ops::Range;

fn markdown(text: &str) -> HoverBlock {
    HoverBlock { text: text.to_string(), kind: HoverBlockKind::Markdown }
}

fn answer(text: &str, range: Range<usize>) -> Option<HoverResult> {
    Some(HoverResult { contents: vec![markdown(text)], range: Some(range) })
}

fn bold() -> HighlightStyle {
    HighlightStyle { color: None, bold: true, italic: false, underline: false }
}

fn underline() -> HighlightStyle {
    HighlightStyle { color: None, bold: false, italic: false, underline: true }
}

fn entry(range: Range<usize>, message: &str, group_id: usize, is_primary: bool) -> DiagnosticEntry {
    DiagnosticEntry {
        range,
        diagnostic: Diagnostic {
            message: message.to_string(),
            severity: DiagnosticSeverity::Error,
            source: None,
            group_id,
            is_primary,
        },
    }
}

fn no_code() -> Vec<Option<Vec<(Range<usize>, HighlightStyle)>>> {
    Vec::new()
}

// Document: "fn test() { println!(); }"
#[test]
fn test_mouse_hover_info_popover() {
    let mut state = HoverState::new();
    // Pointer rests on "println!" (offset 17).
    let request = hover_at(&mut state, Some(17), true, false).expect("a request starts");
    assert!(!state.visible());
    assert_eq!(request.request_delay_millis, HOVER_REQUEST_DELAY_MILLIS);
    assert_eq!(request.reveal_delay_millis, HOVER_DELAY_MILLIS);

    // The answer comes in; after the delay the popover is up.
    let effect = hover_response(&mut state, request.task_id, answer("some basic docs", 12..20));
    assert_eq!(effect, HoverEffect::Nothing);
    let effect = reveal_delay_elapsed(&mut state, request.task_id);
    assert_eq!(effect, HoverEffect::HighlightSymbol(12, 20));
    assert!(state.visible());
    assert_eq!(state.info_popover.as_ref().unwrap().blocks, vec![markdown("some basic docs")]);

    // Pointer moves off the symbol, and the backend has nothing: no popover.
    let request = hover_at(&mut state, Some(5), true, false).expect("a request starts");
    hover_response(&mut state, request.task_id, None);
    reveal_delay_elapsed(&mut state, request.task_id);
    assert!(!state.visible());
}

#[test]
fn test_keyboard_hover_info_popover() {
    let mut state = HoverState::new();
    // Cursor on "fn" (offset 1): keyboard hover has no delay.
    let request = hover(&mut state, 1, false).expect("a request starts");
    assert_eq!(request.request_delay_millis, 0);
    assert_eq!(request.reveal_delay_millis, 0);
    let effect = hover_response(&mut state, request.task_id, answer("some other basic docs", 0..2));
    assert_eq!(effect, HoverEffect::HighlightSymbol(0, 2));
    assert!(state.visible());
    assert_eq!(state.info_popover.as_ref().unwrap().blocks, vec![markdown("some other basic docs")]);
}

#[test]
fn test_hover_diagnostic_and_info_popovers() {
    let mut state = HoverState::new();
    let diagnostics = vec![entry(3..7, "A test diagnostic message.", 0, true)];
    // Cursor in "test" (offset 5): the diagnostic shows at once.
    let request = hover(&mut state, 5, false).expect("a request starts");
    assert!(show_diagnostic(&mut state, request.task_id, &diagnostics));
    assert!(state.diagnostic_popover.is_some() && state.info_popover.is_none());

    // The info popover follows the answer.
    hover_response(&mut state, request.task_id, answer("some new docs", 3..7));
    assert!(state.diagnostic_popover.is_some() && state.info_task.is_some());
    assert!(state.info_popover.is_some());
}

#[test]
fn test_render_blocks() {
    let rendered = render_blocks(0, &[markdown("one **two** three")], &no_code());
    assert_eq!(rendered.text, "one two three", "wrong text");
    assert_eq!(rendered.highlights, vec![(4..7, bold())], "wrong highlights");

    let rendered = render_blocks(0, &[markdown("one [two](the-url) three")], &no_code());
    assert_eq!(rendered.text, "one two three", "wrong text");
    assert_eq!(rendered.highlights, vec![(4..7, underline())], "wrong highlights");
}

#[test]
fn render_link_table() {
    let rendered = render_blocks(3, &[markdown("one [two](the-url) three")], &no_code());
    assert_eq!(rendered.theme_id, 3);
    assert_eq!(rendered.link_urls, vec!["the-url".to_string()]);
    assert_eq!(rendered.link_ranges, vec![4..7]);
}

#[test]
fn render_ordered_list_numbers() {
    let rendered = render_blocks(0, &[markdown("1. one\n2. two")], &no_code());
    assert_eq!(rendered.text, "1. one\n\n2. two");
    let rendered = render_blocks(0, &[markdown("7. a\n8. b\n9. c\n10. d")], &no_code());
    assert_eq!(rendered.text, "7. a\n\n8. b\n\n9. c\n\n10. d");
}

#[test]
fn render_nested_list_indent() {
    let rendered = render_blocks(0, &[markdown("* a\n  1. b\n  2. c")], &no_code());
    assert_eq!(rendered.text, "* a\n\n  1. b\n\n  2. c");
}

#[test]
fn render_adjacent_same_style_merges() {
    let rendered = render_blocks(0, &[markdown("**a** b")], &no_code());
    assert_eq!(rendered.text, "a b");
    assert_eq!(rendered.highlights, vec![(0..1, bold())]);
    let rendered = render_blocks(0, &[markdown("*__a__*")], &no_code());
    assert_eq!(rendered.text, "a");
    assert_eq!(
        rendered.highlights,
        vec![(0..1, HighlightStyle { color: None, bold: true, italic: true, underline: false })]
    );
}

#[test]
fn render_inline_code_span() {
    let rendered = render_blocks(0, &[markdown("a `b` c")], &no_code());
    assert_eq!(rendered.text, "a b c");
    assert_eq!(rendered.highlights, vec![(2..3, HighlightStyle::code_span())]);
}

#[test]
fn render_heading_is_bold() {
    let rendered = render_blocks(0, &[markdown("# Title\nbody")], &no_code());
    assert_eq!(rendered.text, "Title\n\nbody");
    assert_eq!(rendered.highlights, vec![(0..5, bold())]);
}

#[test]
fn render_breaks() {
    let rendered = render_blocks(0, &[markdown("a\nb")], &no_code());
    assert_eq!(rendered.text, "a b");
    let rendered = render_blocks(0, &[markdown("a  \nb")], &no_code());
    assert_eq!(rendered.text, "a\nb");
}

#[test]
fn render_byte_offsets_after_multibyte_text() {
    let rendered = render_blocks(0, &[markdown("é **b**")], &no_code());
    assert_eq!(rendered.text, "é b");
    assert_eq!(rendered.highlights, vec![(3..4, bold())]);
}

#[test]
fn render_plain_text_paragraphs() {
    let blocks = vec![
        HoverBlock { text: "a".to_string(), kind: HoverBlockKind::PlainText },
        HoverBlock { text: "b".to_string(), kind: HoverBlockKind::PlainText },
    ];
    let rendered = render_blocks(0, &blocks, &no_code());
    assert_eq!(rendered.text, "a\n\nb");
    assert!(rendered.highlights.is_empty());
}

#[test]
fn render_empty_input() {
    let rendered = render_blocks(0, &[], &no_code());
    assert_eq!(rendered.text, "");
    assert!(rendered.highlights.is_empty() && rendered.link_ranges.is_empty() && rendered.link_urls.is_empty());
}

#[test]
fn render_code_block_with_and_without_language() {
    let blocks = vec![
        HoverBlock { text: "x".to_string(), kind: HoverBlockKind::PlainText },
        HoverBlock { text: "let y".to_string(), kind: HoverBlockKind::Code { language: "rust".to_string() } },
    ];
    let keyword = HighlightStyle { color: Some(0x0000ffff), bold: false, italic: false, underline: false };
    // Known language: spans move to the code's place; one out of range is left out.
    let table = vec![Some(vec![(0..3, keyword), (2..9, keyword)])];
    let rendered = render_blocks(0, &blocks, &table);
    assert_eq!(rendered.text, "xlet y");
    assert_eq!(rendered.highlights, vec![(1..4, keyword)]);
    // Unknown language: verbatim.
    let rendered = render_blocks(0, &blocks, &vec![None]);
    assert_eq!(rendered.text, "xlet y");
    assert!(rendered.highlights.is_empty());
}

#[test]
fn fenced_code_segments_and_highlights() {
    let blocks = vec![markdown("```rust\nlet x = 1;\n```")];
    let segments = code_segments(&blocks);
    assert_eq!(segments.len(), 1);
    assert_eq!(segments[0].language, "rust");
    assert_eq!(segments[0].text, "let x = 1;\n");
    let keyword = HighlightStyle { color: Some(0x0000ffff), bold: false, italic: false, underline: false };
    let rendered = render_blocks(0, &blocks, &vec![Some(vec![(0..3, keyword)])]);
    assert_eq!(rendered.text, "let x = 1;\n");
    assert_eq!(rendered.highlights, vec![(0..3, keyword)]);
    // Language not known: the text is prose.
    let rendered = render_blocks(0, &blocks, &vec![None]);
    assert_eq!(rendered.text, "let x = 1;\n");
    assert!(rendered.highlights.is_empty());
}

#[test]
fn new_paragraph_cases() {
    let mut t = TextBuf::new();
    new_paragraph(&mut t);
    assert_eq!(t.into_string(), "");
    let mut t = TextBuf::new();
    t.push_str("a");
    new_paragraph(&mut t);
    assert_eq!(t.into_string(), "a\n\n");
    let mut t = TextBuf::new();
    t.push_str("a\n");
    new_paragraph(&mut t);
    assert_eq!(t.into_string(), "a\n\n");
    let mut t = TextBuf::new();
    t.push_str("a\n\n");
    new_paragraph(&mut t);
    assert_eq!(t.into_string(), "a\n\n");
}

#[test]
fn new_paragraph_twice_is_once() {
    let mut t = TextBuf::new();
    t.push_str("a");
    new_paragraph(&mut t);
    new_paragraph(&mut t);
    assert_eq!(t.into_string(), "a\n\n");
}

#[test]
fn superseded_task_is_not_due() {
    let mut state = HoverState::new();
    let first = show_hover(&mut state, 3, false, false).unwrap();
    assert!(request_due(&state, first.task_id));
    let second = show_hover(&mut state, 30, false, false).unwrap();
    assert!(!request_due(&state, first.task_id));
    assert!(request_due(&state, second.task_id));
    hide_hover(&mut state);
    assert!(!request_due(&state, second.task_id));
}

#[test]
fn symbol_highlight_follows_popover() {
    let mut state = HoverState::new();
    let request = show_hover(&mut state, 13, true, false).unwrap();
    assert_eq!(state.highlighted_symbol(), None);
    hover_response(&mut state, request.task_id, answer("docs", 12..20));
    assert_eq!(state.highlighted_symbol(), Some((12, 20)));
    // A new trigger off the symbol clears it.
    show_hover(&mut state, 40, false, false).unwrap();
    assert_eq!(state.highlighted_symbol(), None);
    let request = show_hover(&mut state, 13, true, false).unwrap();
    hover_response(&mut state, request.task_id, answer("docs", 12..20));
    assert_eq!(state.highlighted_symbol(), Some((12, 20)));
    hide_hover(&mut state);
    assert_eq!(state.highlighted_symbol(), None);
}

#[test]
fn code_spans_out_of_order_or_inside_a_char_are_dropped() {
    let blocks = vec![HoverBlock { text: "éab".to_string(), kind: HoverBlockKind::Code { language: "x".to_string() } }];
    let s = HighlightStyle { color: Some(1), bold: false, italic: false, underline: false };
    // 1..2 splits 'é'; 3..4 overlaps nothing and is kept; 2..3 comes before the last kept one.
    let table = vec![Some(vec![(0..2, s), (1..2, s), (3..4, s), (2..3, s)])];
    let rendered = render_blocks(0, &blocks, &table);
    assert_eq!(rendered.text, "éab");
    assert_eq!(rendered.highlights, vec![(0..2, s), (3..4, s)]);
}

#[test]
fn repeated_trigger_at_same_location_asks_once() {
    let mut state = HoverState::new();
    assert!(hover_at(&mut state, Some(4), true, false).is_some());
    assert!(hover_at(&mut state, Some(4), true, false).is_none());
    assert!(hover(&mut state, 4, false).is_none());
    // After a dismissal it asks again.
    hide_hover(&mut state);
    assert!(hover_at(&mut state, Some(4), true, false).is_some());
}

#[test]
fn pointer_answer_waits_for_delay() {
    let mut state = HoverState::new();
    let request = show_hover(&mut state, 9, false, false).unwrap();
    assert_eq!(hover_response(&mut state, request.task_id, answer("docs", 8..12)), HoverEffect::Nothing);
    assert!(state.info_popover.is_none());
    assert_eq!(reveal_delay_elapsed(&mut state, request.task_id), HoverEffect::HighlightSymbol(8, 12));
    assert!(state.info_popover.is_some());
}

#[test]
fn delay_before_answer_then_immediate_reveal() {
    let mut state = HoverState::new();
    let request = show_hover(&mut state, 9, false, false).unwrap();
    assert_eq!(reveal_delay_elapsed(&mut state, request.task_id), HoverEffect::Nothing);
    assert!(!state.visible());
    // No range from the backend: the symbol range is the trigger point.
    let result = Some(HoverResult { contents: vec![markdown("docs")], range: None });
    assert_eq!(hover_response(&mut state, request.task_id, result), HoverEffect::HighlightSymbol(9, 9));
}

#[test]
fn empty_answer_clears_highlight() {
    let mut state = HoverState::new();
    let request = show_hover(&mut state, 2, true, false).unwrap();
    let result = Some(HoverResult { contents: vec![], range: Some(0..4) });
    assert_eq!(hover_response(&mut state, request.task_id, result), HoverEffect::ClearHighlight);
    assert!(!state.visible());
}

#[test]
fn stale_answer_is_dropped() {
    let mut state = HoverState::new();
    let old = show_hover(&mut state, 3, true, false).unwrap();
    let new = show_hover(&mut state, 20, true, false).unwrap();
    assert_ne!(old.task_id, new.task_id);
    assert_eq!(hover_response(&mut state, old.task_id, answer("old", 0..5)), HoverEffect::Nothing);
    assert!(!show_diagnostic(&mut state, old.task_id, &vec![entry(0..5, "old", 0, true)]));
    assert!(!state.visible());
    assert_eq!(hover_response(&mut state, new.task_id, answer("new", 18..22)), HoverEffect::HighlightSymbol(18, 22));
    assert_eq!(state.info_popover.as_ref().unwrap().blocks, vec![markdown("new")]);
}

#[test]
fn renaming_blocks_hover() {
    let mut state = HoverState::new();
    assert!(show_hover(&mut state, 3, true, true).is_none());
    assert!(state.triggered_from.is_none());
}

#[test]
fn hover_disabled_does_nothing() {
    let mut state = HoverState::new();
    assert!(hover_at(&mut state, Some(3), false, false).is_none());
    assert!(state.info_task.is_none());
}

#[test]
fn pointer_within_symbol_keeps_popover() {
    let mut state = HoverState::new();
    let request = show_hover(&mut state, 13, true, false).unwrap();
    hover_response(&mut state, request.task_id, answer("docs", 12..20));
    assert!(hover_at(&mut state, Some(15), true, false).is_none());
    assert!(state.info_popover.is_some());
    // Outside the symbol the popover goes and a new request starts.
    assert!(hover_at(&mut state, Some(25), true, false).is_some());
    assert!(state.info_popover.is_none());
}

#[test]
fn dismiss_clears_and_is_idempotent() {
    let mut state = HoverState::new();
    let request = show_hover(&mut state, 5, true, false).unwrap();
    show_diagnostic(&mut state, request.task_id, &vec![entry(3..7, "m", 0, true)]);
    hover_response(&mut state, request.task_id, answer("docs", 3..7));
    assert!(hide_hover(&mut state));
    assert!(state.info_popover.is_none() && state.diagnostic_popover.is_none());
    assert!(state.info_task.is_none() && state.triggered_from.is_none());
    let counter = state.task_counter;
    assert!(!hide_hover(&mut state));
    assert!(state.info_popover.is_none() && state.diagnostic_popover.is_none());
    assert!(state.info_task.is_none() && state.triggered_from.is_none());
    assert_eq!(state.task_counter, counter);
}

#[test]
fn hover_at_without_point_hides() {
    let mut state = HoverState::new();
    let request = show_hover(&mut state, 5, true, false).unwrap();
    hover_response(&mut state, request.task_id, answer("docs", 3..7));
    assert!(hover_at(&mut state, None, true, false).is_none());
    assert!(!state.visible());
}

#[test]
fn most_specific_diagnostic_picks_shortest_first() {
    let entries = vec![
        entry(0..10, "wide", 0, true),
        entry(4..6, "narrow", 1, true),
        entry(3..5, "narrow too", 2, true),
        entry(20..30, "elsewhere", 3, true),
    ];
    assert_eq!(most_specific_diagnostic(4, &entries), Some(1));
    assert_eq!(most_specific_diagnostic(8, &entries), Some(0));
    assert_eq!(most_specific_diagnostic(15, &entries), None);
    assert_eq!(most_specific_diagnostic(10, &entries), Some(0));
}

#[test]
fn primary_and_activation_target() {
    let entries = vec![entry(0..3, "note", 7, false), entry(10..12, "error", 7, true)];
    assert_eq!(primary_diagnostic(7, &entries), Some(1));
    assert_eq!(primary_diagnostic(8, &entries), None);
    let popover = diagnostic_popover_at(1, &entries).unwrap();
    assert_eq!(popover.local_diagnostic.diagnostic.message, "note");
    assert_eq!(popover.activation_info(), (7, 10));
    let lone = vec![entry(0..3, "note", 9, false)];
    assert_eq!(diagnostic_popover_at(1, &lone).unwrap().activation_info(), (9, 0));
}

#[test]
fn diagnostic_view_text_and_frame() {
    let mut e = entry(0..3, "unused variable", 1, true);
    e.diagnostic.source = Some("rustc".to_string());
    e.diagnostic.severity = DiagnosticSeverity::Warning;
    let popover = diagnostic_popover_at(0, &vec![e]).unwrap();
    let view = popover.render();
    assert_eq!(view.text, "rustc: unused variable");
    assert_eq!(view.source_highlight, Some(0..5));
    assert_eq!(view.container, ContainerStyle::Warning);

    let mut e = entry(0..3, "just a hint", 1, true);
    e.diagnostic.severity = DiagnosticSeverity::Hint;
    let view = diagnostic_popover_at(0, &vec![e]).unwrap().render();
    assert_eq!(view.text, "just a hint");
    assert_eq!(view.source_highlight, None);
    assert_eq!(view.container, ContainerStyle::Info);
}

#[test]
fn state_render_orders_and_caches() {
    let mut state = HoverState::new();
    let request = show_hover(&mut state, 5, true, false).unwrap();
    show_diagnostic(&mut state, request.task_id, &vec![entry(3..7, "m", 0, true)]);
    hover_response(&mut state, request.task_id, answer("one **two** three", 2..7));
    assert_eq!(state.popover_anchor(), Some(3));
    assert!(state.render(5, 0..4, 1, &no_code()).is_none());
    let kinds = state.render(2, 0..4, 1, &no_code()).unwrap();
    assert_eq!(kinds, vec![PopoverKind::Diagnostic, PopoverKind::Info]);
    let rendered = state.info_popover.as_ref().unwrap().rendered().unwrap();
    assert_eq!(rendered.theme_id, 1);
    assert_eq!(rendered.text, "one two three");
}

#[test]
fn info_render_recomputes_on_theme_change() {
    let mut state = HoverState::new();
    let request = show_hover(&mut state, 5, true, false).unwrap();
    hover_response(&mut state, request.task_id, answer("docs", 3..7));
    let popover = state.info_popover.as_mut().unwrap();
    assert!(popover.rendered().is_none());
    popover.render(1, &no_code());
    assert_eq!(popover.rendered().unwrap().theme_id, 1);
    popover.render(2, &no_code());
    assert_eq!(popover.rendered().unwrap().theme_id, 2);
    assert_eq!(popover.rendered().unwrap().text, "docs");
}

#[test]
fn hidden_state_renders_nothing() {
    let mut state = HoverState::new();
    assert!(state.render(0, 0..10, 0, &no_code()).is_none());
    assert_eq!(state.popover_anchor(), None);
}

#[test]
fn markdown_events_fold() {
    let events = vec![
        MdEvent::Start(MdTag::Paragraph),
        MdEvent::Text("see ".to_string()),
        MdEvent::Start(MdTag::Link("https://x".to_string())),
        MdEvent::Start(MdTag::Strong),
        MdEvent::Text("this".to_string()),
        MdEvent::End(MdTag::Strong),
        MdEvent::End(MdTag::Link("https://x".to_string())),
        MdEvent::End(MdTag::Paragraph),
        MdEvent::Start(MdTag::List(Some(3))),
        MdEvent::Start(MdTag::Item),
        MdEvent::Text("a".to_string()),
        MdEvent::End(MdTag::Item),
        MdEvent::Start(MdTag::Item),
        MdEvent::Text("b".to_string()),
        MdEvent::End(MdTag::Item),
        MdEvent::End(MdTag::List(Some(3))),
    ];
    let rendered = render_markdown_events(0, &events, &no_code());
    assert_eq!(rendered.text, "see this\n\n3. a\n\n4. b");
    assert_eq!(
        rendered.highlights,
        vec![(4..8, HighlightStyle { color: None, bold: true, italic: false, underline: true })]
    );
    assert_eq!(rendered.link_ranges, vec![4..8]);
    assert_eq!(rendered.link_urls, vec!["https://x".to_string()]);
}

#[test]
fn markdown_unbalanced_ends_are_harmless() {
    let events = vec![
        MdEvent::End(MdTag::Strong),
        MdEvent::End(MdTag::Link("u".to_string())),
        MdEvent::End(MdTag::List(None)),
        MdEvent::Start(MdTag::Item),
        MdEvent::Text("x".to_string()),
    ];
    let rendered = render_markdown_events(0, &events, &no_code());
    assert_eq!(rendered.text, "x");
    assert!(rendered.highlights.is_empty() && rendered.link_urls.is_empty());
}
