use typhon::commands::session_usage_text;
use typhon::usage::{add_usage, Usage};

#[test]
fn accumulates_all_usage_fields_and_falls_back_to_input_plus_output() {
    let mut accumulated = Usage::default();
    let first = Usage {
        input_tokens: 10,
        output_tokens: 4,
        total_tokens: 0,
        cached_input_tokens: 2,
        cache_creation_input_tokens: 1,
        tool_use_prompt_tokens: 3,
        reasoning_tokens: 5,
    };
    let second = Usage {
        input_tokens: 20,
        output_tokens: 8,
        total_tokens: 35,
        cached_input_tokens: 4,
        cache_creation_input_tokens: 2,
        tool_use_prompt_tokens: 6,
        reasoning_tokens: 7,
    };

    add_usage(&mut accumulated, &first);
    add_usage(&mut accumulated, &second);

    assert_eq!(accumulated.input_tokens, 30);
    assert_eq!(accumulated.output_tokens, 12);
    assert_eq!(accumulated.total_tokens, 49);
    assert_eq!(accumulated.cached_input_tokens, 6);
    assert_eq!(accumulated.cache_creation_input_tokens, 3);
    assert_eq!(accumulated.tool_use_prompt_tokens, 9);
    assert_eq!(accumulated.reasoning_tokens, 12);
}

#[test]
fn formats_session_usage_with_the_requested_breakdown() {
    assert_eq!(
        session_usage_text(&Usage {
            input_tokens: 120,
            output_tokens: 30,
            total_tokens: 150,
            ..Usage::default()
        }),
        "Tokens: 120 entrada / 30 salida / 150 total"
    );
    assert_eq!(
        session_usage_text(&Usage::default()),
        "Sin tokens reportados todavía"
    );
    assert_eq!(
        session_usage_text(&Usage {
            input_tokens: 10,
            output_tokens: 4,
            total_tokens: 14,
            reasoning_tokens: 7,
            ..Usage::default()
        }),
        "Tokens: 10 entrada / 4 salida / 14 total / 7 razonamiento"
    );
}

#[test]
fn adding_an_empty_report_changes_nothing() {
    let mut acc = Usage {
        input_tokens: 3,
        output_tokens: 2,
        total_tokens: 5,
        ..Usage::default()
    };
    let before = acc;
    add_usage(&mut acc, &Usage::default());
    assert_eq!(acc, before);
}

#[test]
fn counters_saturate_instead_of_wrapping() {
    let mut acc = Usage {
        input_tokens: u64::MAX - 1,
        total_tokens: u64::MAX,
        ..Usage::default()
    };
    add_usage(
        &mut acc,
        &Usage {
            input_tokens: 5,
            total_tokens: 5,
            ..Usage::default()
        },
    );
    assert_eq!(acc.input_tokens, u64::MAX);
    assert_eq!(acc.total_tokens, u64::MAX);
}

#[test]
fn first_report_without_total_counts_input_plus_output() {
    let mut acc = Usage::default();
    add_usage(
        &mut acc,
        &Usage {
            input_tokens: 7,
            output_tokens: 8,
            ..Usage::default()
        },
    );
    assert_eq!(acc.total_tokens, 15);
}

#[test]
fn usage_with_any_counter_has_values() {
    assert!(!Usage::new().has_values());
    let u = Usage {
        cached_input_tokens: 1,
        ..Usage::default()
    };
    assert!(u.has_values());
}
