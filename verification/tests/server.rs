use bullet_hell::conceptual::{PlayerReq, UpdateReq};
use bullet_hell::server::{compress, next_round, on_demo_frame, on_frame, pause_after, route, Frame, FrameAction, RESET_PERIOD};
use std::io::Read;

#[test]
fn world_resets_every_period() {
    let mut i = 0;
    let mut resets = Vec::new();
    for round in 1..=130 {
        let (next, reset) = next_round(i);
        i = next;
        if reset {
            resets.push(round);
        }
    }
    assert_eq!(resets, vec![60, 120]);
    assert_eq!(next_round(59), (0, true));
    assert_eq!(next_round(0), (1, false));
    assert_eq!(RESET_PERIOD, 60);
}

#[test]
fn star_fetches_everything_else_updates() {
    let fetch = route(UpdateReq { id: 3, msg: "*".to_string() });
    assert!(matches!(fetch, PlayerReq::Fetch));
    match route(UpdateReq { id: 3, msg: "**".to_string() }) {
        PlayerReq::Update(r) => {
            assert_eq!(r.id, 3);
            assert_eq!(r.msg, "**");
        },
        _ => panic!("an update"),
    }
    assert!(matches!(route(UpdateReq { id: 1, msg: String::new() }), PlayerReq::Update(_)));
}

#[test]
fn frames_become_actions() {
    assert!(matches!(on_frame(7, Frame::Failed), FrameAction::Stop));
    assert!(matches!(on_frame(7, Frame::NonText), FrameAction::Skip));
    match on_frame(7, Frame::Text("left".to_string())) {
        FrameAction::Forward(r) => {
            assert_eq!(r.id, 7);
            assert_eq!(r.msg, "left");
        },
        _ => panic!("a forwarded request"),
    }
}

#[test]
fn compressed_state_decompresses_to_itself() {
    let state = b"{\"grid\":[true,false,true],\"dims\":[1,3]}".repeat(20);
    let packed = compress(&state).expect("compression into memory succeeds");
    assert!(packed.len() < state.len());
    assert_eq!(&packed[..2], &[0x1f, 0x8b]);
    let mut out = Vec::new();
    flate2::read::GzDecoder::new(&packed[..]).read_to_end(&mut out).unwrap();
    assert_eq!(out, state);
    let empty = compress(&[]).unwrap();
    let mut out = Vec::new();
    flate2::read::GzDecoder::new(&empty[..]).read_to_end(&mut out).unwrap();
    assert!(out.is_empty());
}

#[test]
fn demo_frames_become_actions() {
    assert!(matches!(on_demo_frame(Frame::Failed), FrameAction::Stop));
    assert!(matches!(on_demo_frame(Frame::NonText), FrameAction::Stop));
    match on_demo_frame(Frame::Text("2.5".to_string())) {
        FrameAction::Forward(r) => {
            assert_eq!(r.id, 0);
            assert_eq!(r.msg, "2.5");
        },
        _ => panic!("a forwarded request"),
    }
}

#[test]
fn pause_fills_the_rest_of_the_period() {
    assert_eq!(pause_after(10, 33), Some(23));
    assert_eq!(pause_after(33, 33), None);
    assert_eq!(pause_after(50, 33), None);
    assert_eq!(pause_after(0, 33), Some(33));
}
