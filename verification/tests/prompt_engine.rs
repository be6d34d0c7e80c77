use wpm::{KeyInput, RoundStatus, SessionEvent, TypeRacePrompt};

fn typed_buffer(p: &TypeRacePrompt) -> Vec<u8> {
    let (correct, incorrect) = p.split_input();
    let mut out = correct.to_vec();
    out.extend_from_slice(incorrect);
    out
}

#[test]
fn new_prompt_starts_empty() {
    let p = TypeRacePrompt::new(b"hello".to_vec());
    assert_eq!(p.correct_input(), b"");
    assert_eq!(p.incorrect_input(), b"");
    assert_eq!(p.remaining_input(), b"hello");
    assert!(!p.is_complete());
}

#[test]
fn empty_target_is_immediately_complete() {
    let p = TypeRacePrompt::new(Vec::new());
    assert!(p.is_complete());
}

#[test]
fn scenario_cat_keystrokes() {
    let mut p = TypeRacePrompt::new(b"cat".to_vec());
    p.apply_key(KeyInput::Char(b'c'));
    p.apply_key(KeyInput::Char(b'a'));
    p.apply_key(KeyInput::Char(b'x'));
    let (correct, incorrect) = p.split_input();
    assert_eq!(correct, b"ca");
    assert_eq!(incorrect, b"x");
    assert_eq!(p.remaining_input(), b"");
    assert!(!p.is_complete());
    p.apply_key(KeyInput::Backspace);
    p.apply_key(KeyInput::Char(b't'));
    assert_eq!(typed_buffer(&p), b"cat".to_vec());
    assert!(p.is_complete());
}

#[test]
fn backspace_on_empty_buffer_is_a_noop() {
    let mut p = TypeRacePrompt::new(b"abc".to_vec());
    p.apply_key(KeyInput::Backspace);
    p.apply_key(KeyInput::Backspace);
    assert_eq!(typed_buffer(&p), Vec::<u8>::new());
    assert_eq!(p.remaining_input(), b"abc");
}

#[test]
fn append_then_backspace_restores_buffer() {
    let mut p = TypeRacePrompt::new(b"word".to_vec());
    p.apply_key(KeyInput::Char(b'w'));
    p.apply_key(KeyInput::Char(b'q'));
    let before = typed_buffer(&p);
    p.apply_key(KeyInput::Char(b'z'));
    p.apply_key(KeyInput::Backspace);
    assert_eq!(typed_buffer(&p), before);
}

#[test]
fn release_and_other_keys_change_nothing() {
    let mut p = TypeRacePrompt::new(b"hi".to_vec());
    p.apply_key(KeyInput::Char(b'h'));
    let before = typed_buffer(&p);
    p.apply_key(KeyInput::Release);
    p.apply_key(KeyInput::OtherKey);
    assert_eq!(typed_buffer(&p), before);
}

#[test]
fn proper_prefix_is_not_complete() {
    let mut p = TypeRacePrompt::new(b"cat".to_vec());
    p.apply_key(KeyInput::Char(b'c'));
    assert!(!p.is_complete());
    p.apply_key(KeyInput::Char(b'a'));
    assert!(!p.is_complete());
    p.apply_key(KeyInput::Char(b't'));
    assert!(p.is_complete());
}

#[test]
fn span_lengths_cover_typed_buffer() {
    let mut p = TypeRacePrompt::new(b"abcd".to_vec());
    for &b in b"abxyz" {
        p.apply_key(KeyInput::Char(b));
        let (correct, incorrect) = p.split_input();
        assert_eq!(correct.len() + incorrect.len(), typed_buffer(&p).len());
    }
    let (correct, incorrect) = p.split_input();
    assert_eq!(correct, b"ab");
    assert_eq!(incorrect, b"xyz");
}

#[test]
fn typed_longer_than_target_leaves_no_remaining() {
    let mut p = TypeRacePrompt::new(b"ab".to_vec());
    p.apply_key(KeyInput::Char(b'a'));
    p.apply_key(KeyInput::Char(b'b'));
    p.apply_key(KeyInput::Char(b'c'));
    let (correct, incorrect) = p.split_input();
    assert_eq!(correct, b"ab");
    assert_eq!(incorrect, b"c");
    assert_eq!(p.remaining_input(), b"");
    assert!(!p.is_complete());
}

#[test]
fn segments_expose_all_three_spans() {
    let mut p = TypeRacePrompt::new(b"cater".to_vec());
    p.apply_key(KeyInput::Char(b'c'));
    p.apply_key(KeyInput::Char(b'x'));
    let (correct, incorrect, remaining) = p.segments();
    assert_eq!(correct, b"c");
    assert_eq!(incorrect, b"x");
    assert_eq!(remaining, b"ter");
}

#[test]
fn advance_quit_terminates_session() {
    let mut p = TypeRacePrompt::new(b"go".to_vec());
    assert_eq!(p.advance(SessionEvent::Quit), RoundStatus::SessionTerminated);
}

#[test]
fn advance_skip_abandons_round() {
    let mut p = TypeRacePrompt::new(b"go".to_vec());
    assert_eq!(p.advance(SessionEvent::Skip), RoundStatus::RoundSkipped);
}

#[test]
fn advance_keys_until_round_completes() {
    let mut p = TypeRacePrompt::new(b"go".to_vec());
    assert_eq!(
        p.advance(SessionEvent::Key(KeyInput::Char(b'g'))),
        RoundStatus::AwaitingInput
    );
    assert_eq!(
        p.advance(SessionEvent::Other),
        RoundStatus::AwaitingInput
    );
    assert_eq!(
        p.advance(SessionEvent::Key(KeyInput::Char(b'o'))),
        RoundStatus::RoundComplete
    );
}
