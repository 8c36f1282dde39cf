use pifbip::player::{Screen, VideoStream, ViewerMsg, ViewerState, WorkerStep};
use pifbip::video::FrameReader;
use pifbip::FrameSize;

#[test]
fn video_request_starts_decoder_on_blank_screen() {
    let mut state: ViewerState<String> = ViewerState::new();
    let step = state.on_message(ViewerMsg::PlayVideo("clip.mp4".to_string()));
    assert!(step.kill);
    assert!(step.start);
    assert!(!step.close);
    assert!(matches!(step.screen, Screen::Blank));
    assert_eq!(state.video(), Some(&"clip.mp4".to_string()));
    assert!(!state.is_decoding());
    state.started(true);
    assert!(state.is_decoding());
}

#[test]
fn end_of_video_restarts_the_same_video() {
    let mut state: ViewerState<String> = ViewerState::new();
    state.on_message(ViewerMsg::PlayVideo("clip.mp4".to_string()));
    state.started(true);
    let step = state.on_frame(Some(vec![7u32, 8]));
    assert!(!step.kill && !step.start);
    match step.screen {
        Screen::Picture(f) => assert_eq!(f, vec![7u32, 8]),
        _ => panic!("expected the frame to be drawn"),
    }
    let step = state.on_frame(None);
    assert!(step.kill);
    assert!(step.start);
    assert!(matches!(step.screen, Screen::Keep));
    assert!(!state.is_decoding());
    assert_eq!(state.video(), Some(&"clip.mp4".to_string()));
}

#[test]
fn picture_and_clear_replace_the_video() {
    let mut state: ViewerState<String> = ViewerState::new();
    state.on_message(ViewerMsg::PlayVideo("clip.mp4".to_string()));
    state.started(true);
    let step = state.on_message(ViewerMsg::Show(vec![1u32, 2, 3]));
    assert!(step.kill && !step.start && !step.close);
    match step.screen {
        Screen::Picture(f) => assert_eq!(f, vec![1u32, 2, 3]),
        _ => panic!("expected the picture to be drawn"),
    }
    assert_eq!(state.video(), None);
    assert!(!state.is_decoding());
    // No decoder runs, so a frame read changes nothing.
    let step = state.on_frame(None);
    assert!(!step.kill && !step.start);

    state.on_message(ViewerMsg::PlayVideo("b.mkv".to_string()));
    let step = state.on_message(ViewerMsg::Clear);
    assert!(step.kill && !step.start);
    assert!(matches!(step.screen, Screen::Blank));
    assert_eq!(state.video(), None);
}

#[test]
fn close_and_lost_sender_end_the_loop() {
    let mut state: ViewerState<String> = ViewerState::new();
    state.on_message(ViewerMsg::PlayVideo("clip.mp4".to_string()));
    state.started(true);
    let step = state.on_message(ViewerMsg::Close);
    assert!(step.kill && step.close && !step.start);
    assert!(!state.is_decoding());

    let mut state: ViewerState<String> = ViewerState::new();
    let step = state.on_message(ViewerMsg::Disconnected);
    assert!(step.kill && step.close);
}

#[test]
fn empty_mailbox_changes_nothing() {
    let mut state: ViewerState<String> = ViewerState::new();
    state.on_message(ViewerMsg::PlayVideo("clip.mp4".to_string()));
    state.started(true);
    let step = state.on_message(ViewerMsg::Empty);
    assert!(!step.kill && !step.start && !step.close);
    assert!(matches!(step.screen, Screen::Keep));
    assert!(state.is_decoding());
    assert_eq!(state.video(), Some(&"clip.mp4".to_string()));
}

#[test]
fn failed_restart_stops_decoding() {
    let mut state: ViewerState<String> = ViewerState::new();
    state.on_message(ViewerMsg::PlayVideo("clip.mp4".to_string()));
    state.started(false);
    assert!(!state.is_decoding());
    let step = state.on_frame(Some(vec![1u32]));
    assert!(matches!(step.screen, Screen::Keep));
}

#[test]
fn newest_frame_is_taken_once() {
    let mut stream = VideoStream::new(&FrameSize { w: 1, h: 1 });
    assert_eq!(stream.take_frame(), None);
    assert!(matches!(stream.after_read(Some(vec![1u8, 2, 3])), WorkerStep::Continue));
    assert!(matches!(stream.after_read(Some(vec![4u8, 5, 6])), WorkerStep::Continue));
    assert_eq!(stream.take_frame(), Some(vec![4u8, 5, 6]));
    assert_eq!(stream.take_frame(), None);
}

#[test]
fn end_of_video_restarts_until_stop_is_asked() {
    let mut stream = VideoStream::new(&FrameSize { w: 1, h: 1 });
    assert!(stream.keeps_running());
    assert!(matches!(stream.after_read(None), WorkerStep::Restart));
    stream.after_read(Some(vec![9u8, 9, 9]));
    stream.request_stop();
    assert!(!stream.keeps_running());
    assert!(matches!(stream.after_read(None), WorkerStep::Exit));
    // A frame that was not taken survives the stop request.
    assert_eq!(stream.take_frame(), Some(vec![9u8, 9, 9]));
}

#[test]
fn frames_are_read_whole() {
    let mut frame = FrameReader::new(&FrameSize { w: 2, h: 1 });
    assert_eq!(frame.missing(), 6);
    frame.add(&[1, 2, 3, 4]);
    assert!(!frame.is_complete());
    assert_eq!(frame.missing(), 2);
    // Only what the frame lacks is taken.
    frame.add(&[5, 6, 7, 8]);
    assert!(frame.is_complete());
    assert_eq!(frame.into_frame(), Some(vec![1, 2, 3, 4, 5, 6]));
    let mut short = FrameReader::new(&FrameSize { w: 2, h: 1 });
    short.add(&[1]);
    assert_eq!(short.into_frame(), None);
    let size = FrameSize { w: 800, h: 600 };
    assert_eq!(FrameReader::new(&size).missing(), 1_440_000);
}
