use quick_reader::scheduler::{
    chunk_interval_ms, timer_action_between, Scheduler, TimerAction, DEFAULT_CHUNK_SIZE,
    DEFAULT_WORDS_PER_MINUTE, MAX_WORDS_PER_MINUTE, MIN_WORDS_PER_MINUTE,
};
use quick_reader::splitter::TextChunk;

const TEN_WORDS: &str = "Welcome to \"Quick Reader\". Press start to begin reading quickly.";

fn ten_words() -> Scheduler {
    Scheduler::new(TEN_WORDS.to_string())
}

#[test]
fn test_new_session_has_the_defaults() {
    let s = ten_words();
    assert_eq!(s.state().text, TEN_WORDS);
    assert_eq!(s.chunk_size(), 1);
    assert_eq!(s.chunk_size(), DEFAULT_CHUNK_SIZE);
    assert_eq!(s.words_per_minute(), 300);
    assert_eq!(s.words_per_minute(), DEFAULT_WORDS_PER_MINUTE);
    assert_eq!(s.current_index(), 0);
    assert!(!s.is_playing());
    assert!(!s.state().playing);
    assert!(!s.is_input_locked());
    assert_eq!(s.total_chunks(), 10);
    assert_eq!(s.chunks().len(), 10);
    assert_eq!(s.current_chunk().chunk, "Welcome");
}

#[test]
fn test_interval_follows_pace_and_chunk_size() {
    let mut s = ten_words();
    assert_eq!(s.interval_ms(), 200);
    assert_eq!(s.play(), TimerAction::Start(200));
    assert_eq!(s.set_chunk_size(2), TimerAction::Restart(400));
    assert_eq!(s.interval_ms(), 400);
    assert_eq!(s.total_chunks(), 5);
    assert_eq!(s.set_chunk_size(2), TimerAction::Keep);
    assert_eq!(s.step(), TimerAction::Keep);
    assert_eq!(s.current_index(), 1);
}

#[test]
fn test_interval_formula() {
    assert_eq!(chunk_interval_ms(300, 1), 200);
    assert_eq!(chunk_interval_ms(100, 1), 600);
    assert_eq!(chunk_interval_ms(119, 1), 504);
    assert_eq!(chunk_interval_ms(120, 1), 500);
    assert_eq!(chunk_interval_ms(350, 1), 171);
    assert_eq!(chunk_interval_ms(600, 3), 300);
    assert_eq!(chunk_interval_ms(1000, 1), 60);
    assert_eq!(chunk_interval_ms(1000, u32::MAX), 60 * (u32::MAX as u64));
    assert_eq!(chunk_interval_ms(100, u32::MAX), 600 * (u32::MAX as u64));
    assert_eq!(chunk_interval_ms(1, 1), 60000);
    assert_eq!(chunk_interval_ms(1, u32::MAX), 60000 * (u32::MAX as u64));
    assert_eq!(chunk_interval_ms(60001, 7), 0);
    assert_eq!(chunk_interval_ms(usize::MAX, u32::MAX), 0);
}

#[test]
fn test_seek_clamps_to_the_last_chunk() {
    let mut s = ten_words();
    assert_eq!(s.seek(4), TimerAction::Keep);
    assert_eq!(s.current_index(), 4);
    s.seek(9);
    assert_eq!(s.current_index(), 9);
    s.seek(10);
    assert_eq!(s.current_index(), 9);
    s.seek(usize::MAX);
    assert_eq!(s.current_index(), 9);
    assert_eq!(s.current_chunk().chunk, "quickly.");
    s.seek(0);
    assert_eq!(s.current_index(), 0);
}

#[test]
fn test_step_at_the_last_chunk_stops() {
    let mut s = ten_words();
    s.play();
    s.seek(9);
    assert_eq!(s.step(), TimerAction::Cancel);
    assert!(!s.is_playing());
    assert_eq!(s.current_index(), 0);
    assert!(!s.is_input_locked());
}

#[test]
fn test_step_walks_through_all_chunks() {
    let mut s = ten_words();
    s.play();
    for i in 1..10 {
        assert_eq!(s.step(), TimerAction::Keep);
        assert_eq!(s.current_index(), i);
        assert!(s.is_playing());
    }
    assert_eq!(s.step(), TimerAction::Cancel);
    assert_eq!(s.current_index(), 0);
    assert_eq!(s.step(), TimerAction::Keep);
    assert_eq!(s.current_index(), 0);
}

#[test]
fn test_step_while_resting_changes_nothing() {
    let mut s = ten_words();
    s.seek(3);
    assert_eq!(s.step(), TimerAction::Keep);
    assert_eq!(s.current_index(), 3);
    assert!(!s.is_playing());
}

#[test]
fn test_play_pause_stop() {
    let mut s = ten_words();
    assert_eq!(s.pause(), TimerAction::Keep);
    assert_eq!(s.play(), TimerAction::Start(200));
    assert!(s.is_playing());
    assert!(s.is_input_locked());
    assert_eq!(s.play(), TimerAction::Keep);
    s.step();
    s.step();
    assert_eq!(s.pause(), TimerAction::Cancel);
    assert!(!s.is_playing());
    assert!(s.is_input_locked());
    assert_eq!(s.current_index(), 2);
    assert_eq!(s.play(), TimerAction::Start(200));
    assert_eq!(s.stop(), TimerAction::Cancel);
    assert!(!s.is_playing());
    assert!(!s.is_input_locked());
    assert_eq!(s.current_index(), 0);
    s.seek(5);
    assert_eq!(s.stop(), TimerAction::Keep);
    assert_eq!(s.current_index(), 0);
}

#[test]
fn test_restart_keeps_playing() {
    let mut s = ten_words();
    s.play();
    s.seek(6);
    assert_eq!(s.restart(), TimerAction::Keep);
    assert_eq!(s.current_index(), 0);
    assert!(s.is_playing());
    s.pause();
    s.seek(6);
    assert_eq!(s.restart(), TimerAction::Keep);
    assert_eq!(s.current_index(), 0);
    assert!(!s.is_playing());
}

#[test]
fn test_toggle_playing() {
    let mut s = ten_words();
    assert_eq!(s.toggle_playing(), TimerAction::Start(200));
    assert!(s.is_playing());
    assert!(s.is_input_locked());
    assert_eq!(s.toggle_playing(), TimerAction::Cancel);
    assert!(!s.is_playing());
    assert!(s.is_input_locked());
}

#[test]
fn test_pace_is_clamped() {
    let mut s = ten_words();
    s.set_words_per_minute(50);
    assert_eq!(s.words_per_minute(), 100);
    assert_eq!(s.words_per_minute(), MIN_WORDS_PER_MINUTE);
    s.set_words_per_minute(0);
    assert_eq!(s.words_per_minute(), 100);
    assert_eq!(s.interval_ms(), 600);
    s.set_words_per_minute(5000);
    assert_eq!(s.words_per_minute(), 1000);
    assert_eq!(s.words_per_minute(), MAX_WORDS_PER_MINUTE);
    assert_eq!(s.interval_ms(), 60);
    s.set_words_per_minute(100);
    assert_eq!(s.words_per_minute(), 100);
    s.set_words_per_minute(1000);
    assert_eq!(s.words_per_minute(), 1000);
    s.set_words_per_minute(450);
    assert_eq!(s.words_per_minute(), 450);
}

#[test]
fn test_pace_restarts_a_running_timer_only_if_the_interval_changes() {
    let mut s = ten_words();
    assert_eq!(s.set_words_per_minute(600), TimerAction::Keep);
    s.play();
    assert_eq!(s.set_words_per_minute(300), TimerAction::Restart(200));
    assert_eq!(s.set_words_per_minute(350), TimerAction::Restart(171));
    assert_eq!(s.set_words_per_minute(350), TimerAction::Keep);
    assert_eq!(s.set_words_per_minute(351), TimerAction::Restart(170));
    assert_eq!(s.set_words_per_minute(352), TimerAction::Keep);
    assert_eq!(s.set_words_per_minute(5000), TimerAction::Restart(60));
    assert_eq!(s.set_words_per_minute(1000), TimerAction::Keep);
}

#[test]
fn test_chunk_size_keeps_the_place() {
    let mut s = ten_words();
    s.seek(7);
    assert_eq!(s.set_chunk_size(2), TimerAction::Keep);
    assert_eq!(s.current_index(), 3);
    assert_eq!(s.current_chunk().chunk, "to begin");
    s.set_chunk_size(1);
    assert_eq!(s.current_index(), 6);
    s.seek(9);
    s.set_chunk_size(3);
    assert_eq!(s.total_chunks(), 4);
    assert_eq!(s.current_index(), 3);
    assert_eq!(
        *s.current_chunk(),
        TextChunk {
            chunk: "quickly.".into(),
            start_offset: 56,
            stop_offset: 64
        }
    );
    s.set_chunk_size(u32::MAX);
    assert_eq!(s.total_chunks(), 1);
    assert_eq!(s.current_index(), 0);
    s.set_chunk_size(1);
    assert_eq!(s.current_index(), 0);
}

#[test]
fn test_source_text_starts_at_the_first_chunk() {
    let mut s = ten_words();
    s.set_chunk_size(2);
    s.play();
    s.seek(4);
    assert_eq!(s.set_source_text("one two three".to_string()), TimerAction::Keep);
    assert_eq!(s.current_index(), 0);
    assert_eq!(s.total_chunks(), 2);
    assert_eq!(s.current_chunk().chunk, "one two");
    assert_eq!(s.state().text, "one two three");
    assert!(s.is_playing());
}

#[test]
fn test_text_without_words_has_one_empty_chunk() {
    let mut s = Scheduler::new("  \n ".to_string());
    assert_eq!(s.total_chunks(), 1);
    assert_eq!(
        *s.current_chunk(),
        TextChunk {
            chunk: "".into(),
            start_offset: 0,
            stop_offset: 0
        }
    );
    s.seek(3);
    assert_eq!(s.current_index(), 0);
    s.play();
    assert_eq!(s.step(), TimerAction::Cancel);
    assert_eq!(s.current_index(), 0);
    s.set_chunk_size(4);
    assert_eq!(s.total_chunks(), 1);
}

#[test]
fn test_jumps() {
    let mut s = ten_words();
    assert_eq!(s.jump_forward(5), TimerAction::Keep);
    assert_eq!(s.current_index(), 5);
    s.jump_forward(5);
    assert_eq!(s.current_index(), 9);
    s.jump_forward(usize::MAX);
    assert_eq!(s.current_index(), 9);
    assert_eq!(s.jump_back(5), TimerAction::Keep);
    assert_eq!(s.current_index(), 4);
    s.jump_back(5);
    assert_eq!(s.current_index(), 0);
    s.jump_back(usize::MAX);
    assert_eq!(s.current_index(), 0);
}

#[test]
fn test_reset() {
    let mut s = ten_words();
    s.set_words_per_minute(600);
    s.set_chunk_size(2);
    s.seek(3);
    s.play();
    assert_eq!(s.interval_ms(), 200);
    assert_eq!(s.reset(), TimerAction::Keep);
    assert_eq!(s.words_per_minute(), 300);
    assert_eq!(s.chunk_size(), 1);
    assert_eq!(s.current_index(), 6);
    s.set_chunk_size(3);
    assert_eq!(s.reset(), TimerAction::Restart(200));
}

#[test]
fn test_remaining_duration() {
    let mut s = ten_words();
    assert_eq!(s.estimated_remaining_duration(), (0, 2));
    s.seek(9);
    assert_eq!(s.estimated_remaining_duration(), (0, 0));
    s.set_chunk_size(2);
    s.seek(0);
    assert_eq!(s.estimated_remaining_duration(), (0, 2));
    let long = vec!["word"; 7000].join(" ");
    let mut s = Scheduler::new(long);
    s.set_words_per_minute(100);
    assert_eq!(s.estimated_remaining_duration(), (10, 0));
    s.seek(3000);
    assert_eq!(s.estimated_remaining_duration(), (40, 0));
    s.set_words_per_minute(310);
    assert_eq!(s.estimated_remaining_duration(), (12, 52));
    s.set_words_per_minute(1000);
    assert_eq!(s.estimated_remaining_duration(), (4, 0));
}

#[test]
fn test_timer_action_between() {
    assert_eq!(timer_action_between(false, 200, true, 200), TimerAction::Start(200));
    assert_eq!(timer_action_between(false, 200, true, 400), TimerAction::Start(400));
    assert_eq!(timer_action_between(true, 200, false, 400), TimerAction::Cancel);
    assert_eq!(timer_action_between(true, 200, true, 400), TimerAction::Restart(400));
    assert_eq!(timer_action_between(true, 200, true, 200), TimerAction::Keep);
    assert_eq!(timer_action_between(false, 200, false, 400), TimerAction::Keep);
}

#[test]
fn test_play_while_playing_changes_nothing() {
    let mut s = ten_words();
    s.play();
    s.seek(4);
    assert_eq!(s.play(), TimerAction::Keep);
    assert!(s.is_playing());
    assert!(s.is_input_locked());
    assert_eq!(s.current_index(), 4);
    assert_eq!(s.interval_ms(), 200);
}

#[test]
fn test_input_is_locked_while_playing() {
    let mut s = ten_words();
    for round in 0..3 {
        s.toggle_playing();
        assert!(s.is_playing());
        assert!(s.is_input_locked());
        s.set_chunk_size(round + 1);
        s.set_words_per_minute(200);
        s.step();
        assert!(!s.is_playing() || s.is_input_locked());
        s.pause();
    }
}
