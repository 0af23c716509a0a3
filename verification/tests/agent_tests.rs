use std::sync::atomic::{AtomicBool, Ordering};
use std::sync::Arc;
use std::time::Duration;

use typhon::agent::{
    cancels_stream, on_idle_input, start_error_event, AgentEvent, AgentSession,
    ConsoleTimeHook, ExecutionHook, ExecutionMetrics, InputAction, TurnState, UserInput,
};
use typhon::brain::{BrainError, StreamChunk};
use typhon::usage::Usage;

struct TestHook {
    called: Arc<AtomicBool>,
}

impl ExecutionHook for TestHook {
    fn on_execution_completed(&self, _metrics: &ExecutionMetrics) {
        self.called.store(true, Ordering::SeqCst);
    }
}

#[test]
fn test_execution_hook_trigger() {
    let called = Arc::new(AtomicBool::new(false));
    let hook = TestHook {
        called: called.clone(),
    };

    let metrics = ExecutionMetrics {
        prompt: "Test".to_string(),
        duration: Duration::from_millis(150),
        response_len: 42,
        usage: Usage::default(),
        max_turns: 10,
    };

    hook.on_execution_completed(&metrics);
    assert!(called.load(Ordering::SeqCst));
}

#[test]
fn idle_inputs() {
    assert_eq!(on_idle_input(&UserInput::Message("hola".to_string())), InputAction::Answer);
    assert_eq!(on_idle_input(&UserInput::Cancel), InputAction::Ignore);
    assert_eq!(on_idle_input(&UserInput::ResetConversation), InputAction::Reset);
    assert_eq!(on_idle_input(&UserInput::Exit), InputAction::Stop);
}

#[test]
fn what_cancels_a_stream() {
    assert!(cancels_stream(&Some(UserInput::Cancel)));
    assert!(cancels_stream(&Some(UserInput::Exit)));
    assert!(!cancels_stream(&Some(UserInput::Message("x".to_string()))));
    assert!(!cancels_stream(&None));
}

#[test]
fn a_turn_counts_text_bytes_and_usage() {
    let mut session = AgentSession::new(10);
    let mut turn = TurnState::new();
    let (ev, more) = session.on_stream_item(&mut turn, Some(Ok(StreamChunk::Text("añ".to_string()))));
    assert!(more);
    assert_eq!(ev.len(), 1);
    assert_eq!(turn.response_len, 3);
    let u = Usage {
        input_tokens: 2,
        output_tokens: 3,
        ..Usage::default()
    };
    let (ev, more) = session.on_stream_item(&mut turn, Some(Ok(StreamChunk::Usage(u))));
    assert!(more);
    assert_eq!(ev.len(), 2);
    assert_eq!(turn.token_usage.total_tokens, 5);
    assert_eq!(session.session_usage.total_tokens, 5);
    match &ev[1] {
        AgentEvent::SessionUsage(s) => assert_eq!(s.total_tokens, 5),
        _ => panic!("expected the session usage"),
    }
    let (ev, more) = session.on_stream_item(&mut turn, None);
    assert!(!more);
    assert!(ev.is_empty());
}

#[test]
fn a_stream_error_is_reported_and_ends_the_turn() {
    let mut session = AgentSession::new(3);
    let mut turn = TurnState::new();
    let (ev, more) = session.on_stream_item(
        &mut turn,
        Some(Err(BrainError::Stream("broken".to_string()))),
    );
    assert!(!more);
    match &ev[0] {
        AgentEvent::Error(m) => assert_eq!(m, "Error de streaming del proveedor: broken"),
        _ => panic!("expected an error event"),
    }
}

#[test]
fn finishing_a_turn() {
    let session = AgentSession::new(7);
    let turn = TurnState::new();
    let (metrics, end) = session.finish_turn(&turn, "p".to_string(), Duration::from_millis(9));
    assert_eq!(metrics.prompt, "p");
    assert_eq!(metrics.max_turns, 7);
    match end {
        AgentEvent::StreamEnd { response_len, .. } => assert_eq!(response_len, 0),
        _ => panic!("expected the end of the stream"),
    }
}

#[test]
fn resetting_the_conversation() {
    let mut session = AgentSession::new(7);
    session.session_usage.total_tokens = 40;
    match session.on_reset(Err(BrainError::Memory("x".to_string()))) {
        AgentEvent::SystemMessage(m) => {
            assert_eq!(m, "No se pudo reiniciar la conversación: Error de memoria: x")
        }
        _ => panic!("expected a message"),
    }
    assert_eq!(session.session_usage.total_tokens, 40);
    match session.on_reset(Ok(())) {
        AgentEvent::SystemMessage(m) => {
            assert_eq!(m, "Conversación reiniciada. La memoria del agente está vacía.")
        }
        _ => panic!("expected a message"),
    }
    assert_eq!(session.session_usage, Usage::default());
}

#[test]
fn start_errors() {
    match start_error_event(&BrainError::Provider("p".to_string())) {
        AgentEvent::Error(m) => assert_eq!(
            m,
            "Error al iniciar stream: Error de configuración del proveedor: p"
        ),
        _ => panic!("expected an error event"),
    }
}

#[test]
fn time_report_lines() {
    let hook = ConsoleTimeHook;
    let mut metrics = ExecutionMetrics {
        prompt: "x".to_string(),
        duration: Duration::from_millis(1500),
        response_len: 1,
        usage: Usage::default(),
        max_turns: 1,
    };
    assert_eq!(hook.report_line(&metrics, "1.50s"), "Tiempo: 1.50s");
    metrics.usage = Usage {
        input_tokens: 4,
        output_tokens: 6,
        total_tokens: 10,
        ..Usage::default()
    };
    assert_eq!(
        hook.report_line(&metrics, "1.50s"),
        "Tiempo: 1.50s |Tk inp: 4, Tk out: 6, (10 total)"
    );
}

#[test]
fn cloned_measurements_keep_their_duration() {
    let metrics = ExecutionMetrics {
        prompt: "p".to_string(),
        duration: Duration::from_millis(250),
        response_len: 2,
        usage: Usage::default(),
        max_turns: 3,
    };
    let copy = metrics.clone();
    assert_eq!(copy.duration, Duration::from_millis(250));
    let end = AgentEvent::StreamEnd {
        duration: Duration::from_secs(2),
        response_len: 1,
        usage: Usage::default(),
    };
    match end.clone() {
        AgentEvent::StreamEnd { duration, .. } => assert_eq!(duration, Duration::from_secs(2)),
        _ => panic!("expected the end of the stream"),
    }
}

#[test]
fn a_prompt_sends_start_items_and_end() {
    let mut session = AgentSession::new(4);
    let (mut turn, start) = session.start_prompt();
    assert!(matches!(start, AgentEvent::StreamStart));
    let (ev, more) = session.prompt_item(&mut turn, Some(Ok(StreamChunk::Text("hola".to_string()))));
    assert!(more);
    assert!(matches!(&ev[0], AgentEvent::Text(t) if t == "hola"));
    let u = Usage {
        input_tokens: 1,
        output_tokens: 1,
        ..Usage::default()
    };
    let (ev, _) = session.prompt_item(&mut turn, Some(Ok(StreamChunk::Usage(u))));
    assert_eq!(ev.len(), 2);
    let (ev, more) = session.prompt_item(&mut turn, None);
    assert!(!more);
    assert!(ev.is_empty());
    let (metrics, end) = session.finish_prompt(turn, "p".to_string(), Duration::from_millis(3));
    assert_eq!(metrics.response_len, 4);
    assert_eq!(metrics.usage.total_tokens, 2);
    match end {
        AgentEvent::StreamEnd { response_len, usage, .. } => {
            assert_eq!(response_len, 4);
            assert_eq!(usage.total_tokens, 2);
        }
        _ => panic!("expected the end of the stream"),
    }
}

#[test]
fn a_failed_item_sends_its_error_then_the_prompt_ends() {
    let mut session = AgentSession::new(4);
    let (mut turn, _) = session.start_prompt();
    let (ev, more) = session.prompt_item(&mut turn, Some(Err(BrainError::Stream("x".to_string()))));
    assert!(!more);
    assert!(matches!(&ev[0], AgentEvent::Error(m) if m == "Error de streaming del proveedor: x"));
    let (_, end) = session.finish_prompt(turn, "p".to_string(), Duration::from_millis(1));
    assert!(matches!(end, AgentEvent::StreamEnd { .. }));
}

#[test]
fn cancelling_or_failing_to_start_a_prompt() {
    let mut session = AgentSession::new(4);
    let (mut turn, _) = session.start_prompt();
    let _ = session.prompt_item(&mut turn, Some(Ok(StreamChunk::Text("a".to_string()))));
    assert!(matches!(session.cancel_prompt(turn), AgentEvent::Cancelled));
    let (turn, _) = session.start_prompt();
    match session.fail_prompt(turn, &BrainError::Provider("p".to_string())) {
        AgentEvent::Error(m) => assert_eq!(
            m,
            "Error al iniciar stream: Error de configuración del proveedor: p"
        ),
        _ => panic!("expected an error event"),
    }
}
