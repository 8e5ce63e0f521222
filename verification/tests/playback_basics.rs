use bytes::Bytes;
use mcap_player::message::time::ArrivalTime;
use mcap_player::playback::clock::{
    nearest_number, PlaybackClock, PlaybackSpeed, PlaybackView, SeekFidelity, SeekRequest,
};
use mcap_player::playback::data_window::{
    DataWindowError, FetchDemand, FetchPlanner, MemoryWindowStore, SerializedWindow, TimeRange,
};
use mcap_player::recording::raw::{RawMessage, StreamId};
use std::time::Duration;

#[test]
fn respects_pause_speed_and_bounds() {
    let mut clock = PlaybackClock::new(ArrivalTime(100), ArrivalTime(1_000_000_100));
    assert_eq!(clock.advance(Duration::from_secs(1)), ArrivalTime(100));
    clock.set_speed(PlaybackSpeed::Half);
    clock.play();
    assert_eq!(
        clock.advance(Duration::from_millis(500)),
        ArrivalTime(250_000_100)
    );
    assert_eq!(
        clock.advance(Duration::from_secs(4)),
        ArrivalTime(1_000_000_100)
    );
    assert!(!clock.is_playing());
    clock.seek(ArrivalTime(-1));
    assert_eq!(clock.cursor(), ArrivalTime(100));
    assert_eq!(
        clock.view(),
        PlaybackView {
            start: ArrivalTime(100),
            end: ArrivalTime(1_000_000_100),
            cursor: ArrivalTime(100),
            playing: false,
            speed: PlaybackSpeed::Half,
        }
    );
}

#[test]
fn candidate_cursor_is_non_mutating_until_committed() {
    let mut clock = PlaybackClock::new(ArrivalTime(100), ArrivalTime(1_000_000_100));
    clock.play();
    let candidate = clock.cursor_after(Duration::from_millis(250));
    assert_eq!(candidate, ArrivalTime(250_000_100));
    assert_eq!(clock.cursor(), ArrivalTime(100));
    assert!(clock.is_playing());

    clock.commit_cursor(candidate);
    assert_eq!(clock.cursor(), candidate);
    assert!(clock.is_playing());

    let end = clock.cursor_after(Duration::from_secs(10));
    clock.commit_cursor(end);
    assert_eq!(clock.cursor(), clock.end());
    assert!(!clock.is_playing());
}

fn message(time: i64, bytes: Bytes) -> RawMessage {
    RawMessage {
        stream_id: StreamId(1),
        arrival_time: ArrivalTime(time),
        payload: bytes,
    }
}

fn window(start: i64, end: i64, resident_bytes: usize) -> SerializedWindow {
    SerializedWindow::new(
        TimeRange::new(ArrivalTime(start), ArrivalTime(end)).unwrap(),
        vec![],
        resident_bytes,
    )
    .unwrap()
}

#[test]
fn planner_uses_adjacent_exclusive_windows_and_target_ahead() {
    let planner = FetchPlanner::new(Duration::from_secs(1), Duration::from_secs(2)).unwrap();
    let first = planner
        .plan(FetchDemand {
            cursor: ArrivalTime(0),
            complete_until: ArrivalTime(0),
            end_exclusive: ArrivalTime(2_500_000_000),
        })
        .unwrap();
    let second = planner
        .plan(FetchDemand {
            cursor: ArrivalTime(0),
            complete_until: first.end_exclusive,
            end_exclusive: ArrivalTime(2_500_000_000),
        })
        .unwrap();
    assert_eq!(first.end_exclusive, second.start);
    assert!(planner
        .plan(FetchDemand {
            cursor: ArrivalTime(0),
            complete_until: second.end_exclusive,
            end_exclusive: ArrivalTime(2_500_000_000),
        })
        .is_none());
}

#[test]
fn empty_window_advances_exclusive_completeness() {
    let mut store = MemoryWindowStore::new(ArrivalTime(10), 1024).unwrap();
    store.insert(window(10, 20, 0)).unwrap();
    assert_eq!(store.complete_until(), ArrivalTime(20));
    assert!(store.is_complete_through(ArrivalTime(19), ArrivalTime(30)));
    assert!(!store.is_complete_through(ArrivalTime(20), ArrivalTime(30)));
}

#[test]
fn cloned_messages_retain_the_same_payload_allocation() {
    let backing = Bytes::from_static(b"header-payload-tail");
    let payload = backing.slice(7..14);
    let pointer = payload.as_ptr();
    let serialized = SerializedWindow::new(
        TimeRange::new(ArrivalTime(10), ArrivalTime(20)).unwrap(),
        vec![message(12, payload)],
        backing.len(),
    )
    .unwrap();
    let mut store = MemoryWindowStore::new(ArrivalTime(10), 1024).unwrap();
    store.insert(serialized).unwrap();

    let loaded = store.take_messages_through(ArrivalTime(19));
    assert_eq!(loaded[0].payload.as_ptr(), pointer);
    assert!(store.take_messages_through(ArrivalTime(19)).is_empty());
}

#[test]
fn budget_evicts_oldest_but_protects_current_and_next_windows() {
    let mut store = MemoryWindowStore::new(ArrivalTime(0), 8).unwrap();
    store.insert(window(0, 10, 4)).unwrap();
    store.insert(window(10, 20, 4)).unwrap();
    store.insert(window(20, 30, 4)).unwrap();

    store.enforce_budget(ArrivalTime(15));
    assert_eq!(store.window_count(), 2);
    assert_eq!(store.resident_bytes(), 8);
    assert_eq!(store.eviction_count(), 1);
    assert!(store.contains(ArrivalTime(15)));
    assert!(store.contains(ArrivalTime(25)));

    let mut protected = MemoryWindowStore::new(ArrivalTime(0), 1).unwrap();
    protected.insert(window(0, 10, 4)).unwrap();
    protected.insert(window(10, 20, 4)).unwrap();
    protected.enforce_budget(ArrivalTime(5));
    assert_eq!(protected.window_count(), 2);
    assert_eq!(protected.eviction_count(), 0);
}

#[test]
fn rejects_non_adjacent_or_out_of_range_windows() {
    let mut store = MemoryWindowStore::new(ArrivalTime(0), 1024).unwrap();
    assert!(store.insert(window(1, 2, 0)).is_err());
    assert!(SerializedWindow::new(
        TimeRange::new(ArrivalTime(0), ArrivalTime(10)).unwrap(),
        vec![message(10, Bytes::new())],
        0,
    )
    .is_err());
}

#[test]
fn cursor_steps_agree_with_floating_point() {
    for nanos in [
        0_u64,
        1,
        2,
        3,
        5,
        999_999_999,
        9_007_199_254_740_993,
        9_007_199_254_740_995,
        9_007_199_254_740_997,
        4_611_686_018_427_387_903,
        18_446_744_073_709_551_615,
    ] {
        for speed in PlaybackSpeed::all() {
            let mut clock = PlaybackClock::new(ArrivalTime(0), ArrivalTime(i64::MAX));
            clock.play();
            clock.set_speed(speed);
            let factor = f64::from(speed.factor_quarters()) / 4.0;
            let expected = (Duration::from_nanos(nanos).as_nanos() as f64 * factor) as i64;
            assert_eq!(
                clock.cursor_after(Duration::from_nanos(nanos)),
                ArrivalTime(expected)
            );
        }
        assert_eq!(nearest_number(u128::from(nanos)), nanos as f64 as u128);
    }
}

#[test]
fn window_errors_have_their_words() {
    assert_eq!(
        TimeRange::new(ArrivalTime(5), ArrivalTime(5)).unwrap_err().message(),
        "data window start must precede endExclusive"
    );
    let range = TimeRange::new(ArrivalTime(0), ArrivalTime(10)).unwrap();
    assert_eq!(
        SerializedWindow::new(range, vec![message(-3, Bytes::new())], 0)
            .unwrap_err()
            .message(),
        "message time -3 is outside data window [0, 10)"
    );
    assert_eq!(
        SerializedWindow::new(
            range,
            vec![message(5, Bytes::new()), message(4, Bytes::new())],
            0
        )
        .unwrap_err(),
        DataWindowError::UnorderedMessages
    );
    assert_eq!(
        MemoryWindowStore::new(ArrivalTime(0), 0).unwrap_err(),
        DataWindowError::EmptyBudget
    );
    assert_eq!(
        FetchPlanner::new(Duration::ZERO, Duration::from_secs(1)).unwrap_err(),
        DataWindowError::EmptyWindowSize
    );
    assert_eq!(
        FetchPlanner::new(Duration::from_secs(1), Duration::ZERO).unwrap_err(),
        DataWindowError::EmptyTargetAhead
    );
    let mut store = MemoryWindowStore::new(ArrivalTime(7), 8).unwrap();
    assert_eq!(
        store.insert(window(8, 9, 0)).unwrap_err().message(),
        "data window starts at 8, expected 7"
    );
    store.insert(window(7, 8, usize::MAX)).unwrap();
    assert_eq!(
        store.insert(window(8, 9, 1)).unwrap_err(),
        DataWindowError::ResidentBytesOverflow
    );
}

#[test]
fn speeds_and_seeks_say_what_they_are() {
    let labels: Vec<&str> = PlaybackSpeed::all().iter().map(|speed| speed.label()).collect();
    assert_eq!(labels, ["0.25x", "0.5x", "1x", "2x"]);
    let request = SeekRequest::exact_visible(ArrivalTime(9));
    assert_eq!(request.fidelity, SeekFidelity::ExactVisible);
    assert!(request.required_streams.is_empty());
}

#[test]
fn asking_again_for_an_earlier_time_gives_nothing() {
    let mut store = MemoryWindowStore::new(ArrivalTime(0), 1024).unwrap();
    let messages = [2, 5, 9].map(|time| message(time, Bytes::from_static(b"x")));
    let range = TimeRange::new(ArrivalTime(0), ArrivalTime(10)).unwrap();
    let window = SerializedWindow::new(range, messages.to_vec(), 3).unwrap();
    store.insert(window).unwrap();
    assert_eq!(store.take_messages_through(ArrivalTime(6)).len(), 2);
    for again in [6, 5, 2, 0, -1] {
        assert!(store.take_messages_through(ArrivalTime(again)).is_empty());
    }
    assert_eq!(store.take_messages_through(ArrivalTime(9)).len(), 1);
}

#[test]
fn progress_is_a_share_of_at_least_one_nanosecond() {
    let mut clock = PlaybackClock::new(ArrivalTime(100), ArrivalTime(1_000_000_100));
    assert_eq!(clock.progress(), (0, 1_000_000_000));
    clock.commit_cursor(ArrivalTime(250_000_100));
    assert_eq!(clock.progress(), (250_000_000, 1_000_000_000));
    assert_eq!(PlaybackClock::new(ArrivalTime(7), ArrivalTime(7)).progress(), (0, 1));
    let longest = PlaybackClock::new(ArrivalTime(i64::MIN), ArrivalTime(i64::MAX));
    assert_eq!(longest.progress(), (0, i64::MAX));
}
