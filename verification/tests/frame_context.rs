use wxpg::modules::frame_context::FrameContext;
use wxpg::modules::frame_context::FrameError;
use wxpg::modules::frame_context::SurfaceError;

#[test]
fn encoders_are_submitted_in_contribution_order() {
    let mut frame: FrameContext<&str, char> = FrameContext::new("image");
    assert_eq!(frame.add_encoder('a'), Ok(()));
    assert_eq!(frame.add_encoder('b'), Ok(()));
    let batch = frame.finish_and_present().unwrap();
    assert_eq!(batch.encoders, vec!['a', 'b']);
    assert_eq!(batch.output, "image");
}

#[test]
fn contributing_after_the_frame_was_presented_is_an_error() {
    let mut frame: FrameContext<u8, u32> = FrameContext::new(9);
    assert_eq!(frame.add_encoder(1), Ok(()));
    assert!(frame.finish_and_present().is_ok());
    assert_eq!(frame.add_encoder(2), Err(FrameError::Presented));
    assert_eq!(frame.output(), None);
    match frame.finish_and_present() {
        Err(error) => assert_eq!(error, FrameError::Presented),
        Ok(_) => panic!("a frame was presented twice"),
    }
}

#[test]
fn a_frame_without_contributions_submits_nothing() {
    let mut frame: FrameContext<u8, u32> = FrameContext::new(5);
    assert_eq!(frame.output(), Some(&5));
    let batch = frame.finish_and_present().unwrap();
    assert!(batch.encoders.is_empty());
    assert_eq!(batch.output, 5);
}

#[test]
fn many_contributions_keep_their_order() {
    let mut frame: FrameContext<(), u32> = FrameContext::new(());
    for encoder in [5, 3, 9, 3, 0, 7] {
        assert_eq!(frame.add_encoder(encoder), Ok(()));
    }
    let batch = frame.finish_and_present().unwrap();
    assert_eq!(batch.encoders, vec![5, 3, 9, 3, 0, 7]);
}

#[test]
fn begin_frame_passes_on_what_the_surface_answered() {
    let begun: Result<FrameContext<u8, u32>, FrameError> = FrameContext::begin_frame(Ok(4));
    let mut frame = begun.unwrap();
    assert_eq!(frame.output(), Some(&4));
    assert_eq!(frame.add_encoder(1), Ok(()));

    for error in [
        SurfaceError::Timeout,
        SurfaceError::Outdated,
        SurfaceError::Lost,
        SurfaceError::OutOfMemory,
    ] {
        let failed: Result<FrameContext<u8, u32>, FrameError> =
            FrameContext::begin_frame(Err(error));
        match failed {
            Err(reason) => assert_eq!(reason, FrameError::Surface(error)),
            Ok(_) => panic!("a frame was begun without an image"),
        }
    }
}

#[test]
fn only_a_timeout_an_outdated_and_a_lost_surface_are_recoverable() {
    assert!(FrameError::Surface(SurfaceError::Timeout).is_recoverable());
    assert!(FrameError::Surface(SurfaceError::Outdated).is_recoverable());
    assert!(FrameError::Surface(SurfaceError::Lost).is_recoverable());
    assert!(!FrameError::Surface(SurfaceError::OutOfMemory).is_recoverable());
    assert!(!FrameError::Presented.is_recoverable());
}
