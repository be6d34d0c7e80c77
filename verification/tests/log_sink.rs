use wpm::loggers::DeferredLogger;
use wpm::prompts::Prompt;

#[test]
fn deferred_logger_buffers_lines_until_flushed() {
    let mut sink = DeferredLogger::new();
    sink.log_line(b"starting race");
    sink.log_line(b"race completed");
    let drained = sink.flush();
    assert_eq!(drained, b"starting race\nrace completed\n".to_vec());
    assert_eq!(sink.flush(), Vec::<u8>::new());
}

#[test]
fn prompt_keeps_its_text_and_source() {
    let p = Prompt::new("type me".to_string(), Some("a book".to_string()));
    assert_eq!(p.text(), "type me");
    let q = Prompt::new("bare".to_string(), None);
    assert_eq!(q.text(), "bare");
}
