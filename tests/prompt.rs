use beelog::prompt::{line_text, PromptWaiter, ReadEvent, WaitStep};
use beelog::utf8_stream::{decode_piece, StreamDecoder};

fn waiter(markers: &[&str]) -> PromptWaiter {
    PromptWaiter::new(markers.iter().map(|m| m.to_string()).collect())
}

#[test]
fn marker_split_at_every_offset_is_found() {
    let text = "héllo wörld 日本 😀\r\n[node-1]$ Opt>";
    let bytes = text.as_bytes();
    for k in 0..=bytes.len() {
        let mut w = waiter(&["Opt>"]);
        let first = w.step(ReadEvent::Data(bytes[..k].to_vec()));
        let outcome = match first {
            WaitStep::Finished(o) => {
                assert_eq!(k, bytes.len());
                o
            }
            WaitStep::ReadAgain => match w.step(ReadEvent::Data(bytes[k..].to_vec())) {
                WaitStep::Finished(o) => o,
                _ => panic!("marker not found when split at {}", k),
            },
            _ => panic!("unexpected step at {}", k),
        };
        assert_eq!(outcome.marker, "Opt>");
        assert_eq!(outcome.transcript, text);
    }
}

#[test]
fn multibyte_character_split_across_reads_is_decoded() {
    let text = "x€y";
    let bytes = text.as_bytes();
    let mut w = waiter(&["y"]);
    assert!(matches!(w.step(ReadEvent::Data(bytes[..2].to_vec())), WaitStep::ReadAgain));
    assert!(matches!(w.step(ReadEvent::Data(bytes[2..4].to_vec())), WaitStep::ReadAgain));
    match w.step(ReadEvent::Data(bytes[4..].to_vec())) {
        WaitStep::Finished(o) => {
            assert_eq!(o.marker, "y");
            assert_eq!(o.transcript, "x€y");
        }
        _ => panic!("expected a match"),
    }
}

#[test]
fn deadline_without_marker_returns_empty_marker_and_transcript() {
    let mut w = waiter(&["Opt>"]);
    assert!(matches!(w.step(ReadEvent::Data(b"login banner\r\n".to_vec())), WaitStep::ReadAgain));
    assert!(matches!(w.step(ReadEvent::NoDataYet), WaitStep::SleepThenRead));
    assert!(matches!(w.step(ReadEvent::Data(b"still nothing".to_vec())), WaitStep::ReadAgain));
    match w.step(ReadEvent::DeadlineReached) {
        WaitStep::Finished(o) => {
            assert_eq!(o.marker, "");
            assert_eq!(o.transcript, "login banner\r\nstill nothing");
        }
        _ => panic!("a deadline ends the wait without an error"),
    }
    assert!(w.finished());
}

#[test]
fn deadline_before_any_data_gives_empty_transcript() {
    let mut w = waiter(&["$"]);
    match w.step(ReadEvent::DeadlineReached) {
        WaitStep::Finished(o) => {
            assert_eq!(o.marker, "");
            assert_eq!(o.transcript, "");
        }
        _ => panic!("expected the wait to end"),
    }
}

#[test]
fn end_of_stream_ends_the_wait() {
    let mut w = waiter(&["$"]);
    assert!(matches!(w.step(ReadEvent::Data(b"bye".to_vec())), WaitStep::ReadAgain));
    match w.step(ReadEvent::EndOfStream) {
        WaitStep::Finished(o) => {
            assert_eq!(o.marker, "");
            assert_eq!(o.transcript, "bye");
        }
        _ => panic!("expected the wait to end"),
    }
}

#[test]
fn read_failure_is_reported() {
    let mut w = waiter(&["$"]);
    match w.step(ReadEvent::Failed("connection reset".to_string())) {
        WaitStep::Failed(m) => assert_eq!(m, "connection reset"),
        _ => panic!("expected a failure"),
    }
}

#[test]
fn first_marker_in_order_wins() {
    let mut w = waiter(&["Opt>", "$", "#"]);
    match w.step(ReadEvent::Data(b"root# user$ Opt>".to_vec())) {
        WaitStep::Finished(o) => assert_eq!(o.marker, "Opt>"),
        _ => panic!("expected a match"),
    }
    let mut w = waiter(&["Opt>", "$", "#"]);
    match w.step(ReadEvent::Data(b"root# user$".to_vec())) {
        WaitStep::Finished(o) => assert_eq!(o.marker, "$"),
        _ => panic!("expected a match"),
    }
}

#[test]
fn finished_wait_repeats_its_outcome() {
    let mut w = waiter(&["ok"]);
    assert!(matches!(w.step(ReadEvent::Data(b"ok".to_vec())), WaitStep::Finished(_)));
    match w.step(ReadEvent::Data(b"more".to_vec())) {
        WaitStep::Finished(o) => {
            assert_eq!(o.marker, "ok");
            assert_eq!(o.transcript, "ok");
        }
        _ => panic!("a finished wait stays finished"),
    }
}

#[test]
fn malformed_bytes_are_dropped() {
    let (text, rest) = decode_piece(&[b'a', 0xff, b'b', 0xc3]);
    assert_eq!(text, "ab");
    assert_eq!(rest, vec![0xc3]);
    let (text, rest) = decode_piece(&[0xe2, 0x82, 0xac]);
    assert_eq!(text, "€");
    assert!(rest.is_empty());
}

#[test]
fn stream_decoder_carries_incomplete_scalars() {
    let mut d = StreamDecoder::new();
    let bytes = "😀".as_bytes();
    assert_eq!(d.feed(&bytes[..1]), "");
    assert_eq!(d.feed(&bytes[1..3]), "");
    assert_eq!(d.feed(&bytes[3..]), "😀");
}

#[test]
fn lines_end_with_carriage_return() {
    assert_eq!(line_text("ls -l"), "ls -l\r");
    assert_eq!(line_text(""), "\r");
}
