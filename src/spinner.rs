use vstd::prelude::*;
use vstd::string::*;
use std::sync::Arc;
use std::sync::atomic::{AtomicBool, Ordering};

verus! {

/// A terminal activity indicator: a message followed by a frame that cycles
/// through `spinner`, redrawn every `delay` milliseconds until stopped.
pub struct Spinner {
    message: String,
    spinner: Vec<char>,
    delay: u64,
    stop_flag: Arc<AtomicBool>,
}

/// `n` spaces.
pub open spec fn spaces(n: nat) -> Seq<char> {
    Seq::new(n, |i: int| ' ')
}

impl Spinner {
    pub closed spec fn message_view(&self) -> Seq<char> {
        self.message@
    }

    pub closed spec fn frames(&self) -> Seq<char> {
        self.spinner@
    }

    pub closed spec fn delay_view(&self) -> u64 {
        self.delay
    }

    /// A spinner showing `message`, cycling through `spinner` every `delay`
    /// milliseconds; it is not stopped.
    pub fn new(message: String, spinner: Vec<char>, delay: u64) -> (r: Spinner)
        ensures
            r.message_view() == message@,
            r.frames() == spinner@,
            r.delay_view() == delay,
    {
        Spinner { message, spinner, delay, stop_flag: Arc::new(AtomicBool::new(false)) }
    }

    /// Asks the running animation to stop.
    pub fn stop(&self) {
        self.stop_flag.store(true, Ordering::Relaxed);
    }

    /// Whether `stop` has been called.
    pub fn is_stopped(&self) -> bool {
        self.stop_flag.load(Ordering::Relaxed)
    }

    /// The message shown before the frame.
    pub fn message(&self) -> (r: &String)
        ensures
            r@ == self.message_view(),
    {
        &self.message
    }

    /// Milliseconds between two frames.
    pub fn delay(&self) -> (r: u64)
        ensures
            r == self.delay_view(),
    {
        self.delay
    }

    /// The frame shown at step `tick`: the frames repeat in a cycle. `None`
    /// when the spinner has no frame.
    pub fn frame_at(&self, tick: usize) -> (r: Option<char>)
        ensures
            r == (if self.frames().len() > 0 {
                Some(self.frames()[tick as int % self.frames().len() as int])
            } else {
                None
            }),
    {
        if self.spinner.len() == 0 {
            None
        } else {
            Some(self.spinner[tick % self.spinner.len()])
        }
    }

    /// The blank text that clears the line once the animation ends: as many
    /// spaces as the message has characters, and two more for the space and
    /// the frame.
    pub fn blank_line(&self) -> (r: String)
        requires
            self.message_view().len() + 2 <= usize::MAX,
        ensures
            r@ == spaces(self.message_view().len() + 2),
    {
        let n = self.message.as_str().unicode_len() + 2;
        let mut r = String::new();
        let mut i: usize = 0;
        while i < n
            invariant
                i <= n,
                r@ == spaces(i as nat),
            decreases n - i,
        {
            r.append(" ");
            proof {
                reveal_strlit(" ");
            }
            i = i + 1;
            assert(r@ =~= spaces(i as nat));
        }
        r
    }
}

} // verus!
