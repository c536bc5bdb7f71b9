use vstd::prelude::*;

use crate::buffer::SamplesBuffer;

verus! {

/// Wraps a source and raises a one-shot signal the first time the source
/// runs dry: the canonical end-of-track sign the controller watches for.
pub struct Done {
    pub input: SamplesBuffer,
    pub signal_sent: bool,
}

impl Done {
    pub open spec fn wf(self) -> bool {
        self.input.wf()
    }

    pub fn new(input: SamplesBuffer) -> (d: Done)
        requires
            input.wf(),
        ensures
            d.wf(),
            d.input == input,
            !d.signal_sent,
    {
        Done { input, signal_sent: false }
    }

    /// Whether the source has reported its end.
    pub fn is_done(&self) -> (r: bool)
        ensures
            r == self.signal_sent,
    {
        self.signal_sent
    }

    /// The next sample from the source; the first `None` latches the
    /// end-of-track signal.
    pub fn next(&mut self) -> (r: Option<u32>)
        requires
            old(self).wf(),
        ensures
            final(self).wf(),
            final(self).input.data@ == old(self).input.data@,
            old(self).input.remaining().len() == 0 ==> r is None && final(self).signal_sent,
            old(self).input.remaining().len() > 0 ==> {
                &&& r == Some(old(self).input.remaining()[0])
                &&& final(self).input.remaining() == old(self).input.remaining().drop_first()
                &&& final(self).signal_sent == old(self).signal_sent
            },
    {
        let r = self.input.next();
        if !self.signal_sent && r.is_none() {
            self.signal_sent = true;
        }
        r
    }
}

/// Build a pausable source, already paused when asked.
pub fn pausable(source: SamplesBuffer, paused: bool) -> (p: Pausable)
    requires
        source.wf(),
    ensures
        p.wf(),
        p.input == source,
        p.spec_paused() == paused,
        p.remaining_paused_samples == 0,
{
    let paused_channels: Option<u16> = if paused {
        Some(source.channels())
    } else {
        None
    };
    Pausable { input: source, paused_channels, remaining_paused_samples: 0 }
}

/// Wraps a source so it can pause: while paused it emits silent samples,
/// a whole frame at a time, and reads nothing from the source.
pub struct Pausable {
    pub input: SamplesBuffer,
    pub paused_channels: Option<u16>,
    pub remaining_paused_samples: u16,
}

impl Pausable {
    pub open spec fn wf(self) -> bool {
        &&& self.input.wf()
        &&& (match self.paused_channels {
            Some(c) => c >= 1,
            None => true,
        })
    }

    pub open spec fn spec_paused(self) -> bool {
        self.paused_channels is Some
    }

    /// Pause or resume; pausing records the frame width to keep emitting
    /// whole frames of silence.
    pub fn set_paused(&mut self, paused: bool)
        requires
            old(self).wf(),
        ensures
            final(self).wf(),
            final(self).input == old(self).input,
            final(self).spec_paused() == paused,
            paused && !old(self).spec_paused() ==> final(self).paused_channels == Some(
                old(self).input.channels,
            ),
            paused == old(self).spec_paused() ==> *final(self) == *old(self),
    {
        match (self.paused_channels, paused) {
            (None, true) => self.paused_channels = Some(self.input.channels()),
            (Some(_), false) => self.paused_channels = None,
            _ => (),
        }
    }

    /// The next sample: silence while paused, the source otherwise.
    pub fn next(&mut self) -> (r: Option<u32>)
        requires
            old(self).wf(),
        ensures
            final(self).wf(),
            old(self).remaining_paused_samples > 0 ==> {
                &&& r == Some(0u32)
                &&& final(self).remaining_paused_samples == old(self).remaining_paused_samples
                    - 1
                &&& final(self).input == old(self).input
            },
            old(self).remaining_paused_samples == 0 && old(self).spec_paused() ==> {
                &&& r == Some(0u32)
                &&& final(self).remaining_paused_samples == old(
                    self,
                ).paused_channels->0 - 1
                &&& final(self).input == old(self).input
            },
            old(self).remaining_paused_samples == 0 && !old(self).spec_paused() ==> {
                &&& old(self).input.remaining().len() == 0 ==> r is None
                &&& old(self).input.remaining().len() > 0 ==> r == Some(
                    old(self).input.remaining()[0],
                ) && final(self).input.remaining() == old(self).input.remaining().drop_first()
            },
    {
        if self.remaining_paused_samples > 0 {
            self.remaining_paused_samples = self.remaining_paused_samples - 1;
            return Some(0);
        }
        match self.paused_channels {
            Some(ch) => {
                self.remaining_paused_samples = ch - 1;
                Some(0)
            },
            None => self.input.next(),
        }
    }
}

} // verus!
