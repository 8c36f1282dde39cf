//! Looping video playback: what each request to the preview window and each
//! decoded frame do to the screen and to the decoder process, and the frame
//! slot that a decoding thread shares with the preview pane.
use vstd::prelude::*;
use crate::video::FrameSize;

verus! {

/// A request to the preview window, or what its mailbox held instead.
pub enum ViewerMsg<P> {
    /// Show a picture, already drawn into a window-sized buffer.
    Show(Vec<u32>),
    /// Play the video at this path, looping.
    PlayVideo(P),
    /// Blank the window.
    Clear,
    /// Close the window.
    Close,
    /// Every sender is gone.
    Disconnected,
    /// No request is waiting.
    Empty,
}

/// What the window draws next.
pub enum Screen {
    /// What it drew before.
    Keep,
    /// A black frame.
    Blank,
    /// This buffer.
    Picture(Vec<u32>),
}

/// What the window loop does after a request or a frame read, in this order:
/// stop the decoder, start it again on the current video, draw, leave.
pub struct ViewerStep {
    /// Stop the decoder process, if one runs.
    pub kill: bool,
    /// Start a decoder on the current video and report whether it started.
    pub start: bool,
    /// What to draw.
    pub screen: Screen,
    /// Leave the loop.
    pub close: bool,
}

/// The step that draws `screen` and touches nothing else.
pub open spec fn draw_only(screen: Screen) -> ViewerStep {
    ViewerStep { kill: false, start: false, screen, close: false }
}

/// The decisions of the preview window: the video that plays, if any, and
/// whether a decoder process runs for it.
pub struct ViewerState<P> {
    video: Option<P>,
    running: bool,
}

impl<P> ViewerState<P> {
    /// The video that plays, or `None` when the window shows a picture or
    /// nothing.
    pub closed spec fn playing(&self) -> Option<P> {
        self.video
    }

    /// A decoder process runs.
    pub closed spec fn decoding(&self) -> bool {
        self.running
    }

    /// A window that shows nothing and runs no decoder.
    pub fn new() -> (s: Self)
        ensures
            s.playing() is None,
            !s.decoding(),
    {
        ViewerState { video: None, running: false }
    }

    /// The video that plays, if any.
    pub fn video(&self) -> (r: Option<&P>)
        ensures
            r == (match self.playing() {
                Some(p) => Some(&p),
                None => None,
            }),
    {
        match &self.video {
            Some(p) => Some(p),
            None => None,
        }
    }

    /// Whether a decoder process runs.
    pub fn is_decoding(&self) -> (r: bool)
        ensures
            r == self.decoding(),
    {
        self.running
    }

    /// Handles one request. Every request but an empty mailbox stops the
    /// decoder; a picture or a blank replaces the video; a video starts a
    /// decoder on a blank screen; closing, or losing every sender, leaves
    /// the loop.
    pub fn on_message(&mut self, msg: ViewerMsg<P>) -> (step: ViewerStep)
        ensures
            match msg {
                ViewerMsg::Show(buf) => {
                    &&& step == ViewerStep { kill: true, start: false, screen: Screen::Picture(buf), close: false }
                    &&& final(self).playing() is None
                    &&& !final(self).decoding()
                },
                ViewerMsg::PlayVideo(p) => {
                    &&& step == ViewerStep { kill: true, start: true, screen: Screen::Blank, close: false }
                    &&& final(self).playing() == Some(p)
                    &&& !final(self).decoding()
                },
                ViewerMsg::Clear => {
                    &&& step == ViewerStep { kill: true, start: false, screen: Screen::Blank, close: false }
                    &&& final(self).playing() is None
                    &&& !final(self).decoding()
                },
                ViewerMsg::Close | ViewerMsg::Disconnected => {
                    &&& step == ViewerStep { kill: true, start: false, screen: Screen::Keep, close: true }
                    &&& final(self).playing() == old(self).playing()
                    &&& !final(self).decoding()
                },
                ViewerMsg::Empty => {
                    &&& step == draw_only(Screen::Keep)
                    &&& *final(self) == *old(self)
                },
            },
    {
        match msg {
            ViewerMsg::Show(buf) => {
                self.video = None;
                self.running = false;
                ViewerStep { kill: true, start: false, screen: Screen::Picture(buf), close: false }
            },
            ViewerMsg::PlayVideo(p) => {
                self.video = Some(p);
                self.running = false;
                ViewerStep { kill: true, start: true, screen: Screen::Blank, close: false }
            },
            ViewerMsg::Clear => {
                self.video = None;
                self.running = false;
                ViewerStep { kill: true, start: false, screen: Screen::Blank, close: false }
            },
            ViewerMsg::Close | ViewerMsg::Disconnected => {
                self.running = false;
                ViewerStep { kill: true, start: false, screen: Screen::Keep, close: true }
            },
            ViewerMsg::Empty => ViewerStep { kill: false, start: false, screen: Screen::Keep, close: false },
        }
    }

    /// Records whether the decoder that a step asked for started.
    pub fn started(&mut self, ok: bool)
        ensures
            final(self).playing() == old(self).playing(),
            final(self).decoding() == ok,
    {
        self.running = ok;
    }

    /// Handles what a frame read gave: a frame is drawn; the end of the
    /// stream stops the decoder and, while a video plays, starts it again
    /// from the beginning. Without a running decoder nothing was read and
    /// nothing changes.
    pub fn on_frame(&mut self, frame: Option<Vec<u32>>) -> (step: ViewerStep)
        ensures
            !old(self).decoding() ==> step == draw_only(Screen::Keep) && *final(self) == *old(self),
            old(self).decoding() ==> match frame {
                Some(f) => step == draw_only(Screen::Picture(f)) && *final(self) == *old(self),
                None => {
                    &&& step == ViewerStep {
                        kill: true,
                        start: old(self).playing() is Some,
                        screen: Screen::Keep,
                        close: false,
                    }
                    &&& final(self).playing() == old(self).playing()
                    &&& !final(self).decoding()
                },
            },
    {
        if !self.running {
            return ViewerStep { kill: false, start: false, screen: Screen::Keep, close: false };
        }
        match frame {
            Some(f) => ViewerStep { kill: false, start: false, screen: Screen::Picture(f), close: false },
            None => {
                self.running = false;
                let again = self.video.is_some();
                ViewerStep { kill: true, start: again, screen: Screen::Keep, close: false }
            },
        }
    }
}

/// What the decoding thread behind the preview pane shares with the pane:
/// the newest decoded frame that the pane has not taken yet, and whether the
/// pane has asked the thread to stop.
pub struct VideoStream {
    latest: Option<Vec<u8>>,
    stop: bool,
    frame_len: usize,
}

/// The abstract value of a [`VideoStream`].
pub struct StreamView {
    /// The frame that waits to be taken, if any.
    pub pending: Option<Seq<u8>>,
    /// The pane has asked the thread to stop.
    pub stop: bool,
    /// The size of a frame, in bytes.
    pub frame_len: nat,
}

/// A waiting frame is a whole frame.
pub open spec fn stream_ok(v: StreamView) -> bool {
    v.pending matches Some(f) ==> f.len() == v.frame_len
}

/// The slot after a decoded frame was stored: it replaces any frame that was
/// not taken.
pub open spec fn stored(v: StreamView, frame: Seq<u8>) -> StreamView {
    StreamView { pending: Some(frame), ..v }
}

/// What a take gives, and the slot after it: the waiting frame, if any, and
/// an empty slot.
pub open spec fn taken(v: StreamView) -> (Option<Seq<u8>>, StreamView) {
    (v.pending, StreamView { pending: None, ..v })
}

/// The abstract value of an optional frame.
pub open spec fn frame_view(f: Option<Vec<u8>>) -> Option<Seq<u8>> {
    match f {
        Some(v) => Some(v@),
        None => None,
    }
}

/// What the decoding thread does after a frame read.
pub enum WorkerStep {
    /// Wait a frame's time and read the next frame.
    Continue,
    /// Stop the decoder and start it again from the beginning of the video.
    Restart,
    /// Stop the decoder and end the thread.
    Exit,
}

impl View for VideoStream {
    type V = StreamView;

    closed spec fn view(&self) -> StreamView {
        StreamView { pending: frame_view(self.latest), stop: self.stop, frame_len: self.frame_len as nat }
    }
}

impl VideoStream {
    /// A stream of frames of `size`, with no frame yet, running.
    pub fn new(size: &FrameSize) -> (s: Self)
        requires
            size.w * size.h * 3 <= usize::MAX,
        ensures
            s@ == (StreamView { pending: None, stop: false, frame_len: (size.w * size.h * 3) as nat }),
            stream_ok(s@),
    {
        VideoStream { latest: None, stop: false, frame_len: size.frame_bytes() }
    }

    /// Takes the most recent decoded frame (rgb24), if a new one is
    /// available: a whole frame.
    pub fn take_frame(&mut self) -> (r: Option<Vec<u8>>)
        requires
            stream_ok(old(self)@),
        ensures
            (frame_view(r), final(self)@) == taken(old(self)@),
            stream_ok(final(self)@),
            r matches Some(f) ==> f@.len() == old(self)@.frame_len,
    {
        self.latest.take()
    }

    /// Asks the decoding thread to stop.
    pub fn request_stop(&mut self)
        ensures
            final(self)@ == (StreamView { stop: true, ..old(self)@ }),
            stream_ok(old(self)@) ==> stream_ok(final(self)@),
    {
        self.stop = true;
    }

    /// Whether the thread should go on: it ends as soon as a stop was asked.
    pub fn keeps_running(&self) -> (r: bool)
        ensures
            r == !self@.stop,
    {
        !self.stop
    }

    /// Handles what a frame read gave (a whole frame, see
    /// [`crate::video::FrameReader`], or the end of the video): a frame is stored for the
    /// pane; the end of the video starts it again unless a stop was asked.
    pub fn after_read(&mut self, frame: Option<Vec<u8>>) -> (step: WorkerStep)
        requires
            stream_ok(old(self)@),
            frame matches Some(f) ==> f@.len() == old(self)@.frame_len,
        ensures
            stream_ok(final(self)@),
            match frame {
                Some(f) => step is Continue && final(self)@ == stored(old(self)@, f@),
                None => {
                    &&& final(self)@ == old(self)@
                    &&& (if old(self)@.stop { step is Exit } else { step is Restart })
                },
            },
    {
        match frame {
            Some(f) => {
                self.latest = Some(f);
                WorkerStep::Continue
            },
            None => {
                if self.stop {
                    WorkerStep::Exit
                } else {
                    WorkerStep::Restart
                }
            },
        }
    }
}

/// Of the frames stored between two takes, only the newest comes out, and it
/// comes out once: a second take gives nothing.
pub proof fn lemma_newest_frame_taken_once(v: StreamView, a: Seq<u8>, b: Seq<u8>)
    ensures
        taken(stored(stored(v, a), b)).0 == Some(b),
        taken(taken(stored(v, a)).1).0 is None,
        taken(stored(v, a)).1.stop == v.stop,
        stream_ok(v) && a.len() == v.frame_len ==> stream_ok(stored(v, a)) && stream_ok(
            taken(stored(v, a)).1,
        ),
{
}

} // verus!
