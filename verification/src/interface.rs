//! The driver's two external collaborators: the serial bus that the packed
//! image is shifted out on, and the digital output pin that drives the latch
//! line.  Both are traits for the user of the library to implement over the
//! hardware; the library also provides recording implementations, so that
//! tests can observe exactly what a driver issued.

use vstd::prelude::*;

verus! {

/// Failure of a bus transfer, reported by a [`Bus`] implementation.
#[derive(Clone, Copy, Debug, PartialEq, Eq, Structural)]
pub struct BusError;

/// Failure of a pin transition, reported by a [`LatchPin`] implementation.
#[derive(Clone, Copy, Debug, PartialEq, Eq, Structural)]
pub struct PinError;

/// A blocking synchronous serial bus.
pub trait Bus: Sized {
    /// Issues one blocking write of `bytes`, transferring them in order,
    /// most-significant-bit first within each byte, and returns only on
    /// completion or failure.
    fn write(&mut self, bytes: Vec<u8>) -> Result<(), BusError>;
}

/// A digital output pin driving the latch line of the device chain.
pub trait LatchPin: Sized {
    /// Drives the pin high.
    fn set_high(&mut self) -> Result<(), PinError>;

    /// Drives the pin low.
    fn set_low(&mut self) -> Result<(), PinError>;
}

/// A bus that records every write issued on it, for tests and examples.
/// When `fail` is set, every write is recorded and then reported as failed.
pub struct RecordingBus {
    /// The byte sequences written so far, oldest first.
    pub writes: Vec<Vec<u8>>,
    /// Whether every write reports failure.
    pub fail: bool,
}

impl RecordingBus {
    /// A bus with no writes recorded yet.
    pub fn new(fail: bool) -> (r: RecordingBus)
        ensures
            r.writes@ == Seq::<Vec<u8>>::empty(),
            r.fail == fail,
    {
        let r = RecordingBus { writes: Vec::new(), fail };
        proof {
            assert(r.writes@ =~= Seq::<Vec<u8>>::empty());
        }
        r
    }
}

impl Bus for RecordingBus {
    fn write(&mut self, bytes: Vec<u8>) -> Result<(), BusError> {
        self.writes.push(bytes);
        if self.fail {
            Err(BusError)
        } else {
            Ok(())
        }
    }
}

/// A latch pin that records every transition issued on it, for tests and
/// examples.  Each direction can be made to report failure; the transition
/// is recorded either way.
pub struct RecordingPin {
    /// The transitions issued so far, oldest first; `true` is high.
    pub transitions: Vec<bool>,
    /// Whether a transition high reports failure.
    pub fail_high: bool,
    /// Whether a transition low reports failure.
    pub fail_low: bool,
}

impl RecordingPin {
    /// A pin with no transitions recorded yet.
    pub fn new(fail_high: bool, fail_low: bool) -> (r: RecordingPin)
        ensures
            r.transitions@ == Seq::<bool>::empty(),
            r.fail_high == fail_high,
            r.fail_low == fail_low,
    {
        let r = RecordingPin { transitions: Vec::new(), fail_high, fail_low };
        proof {
            assert(r.transitions@ =~= Seq::<bool>::empty());
        }
        r
    }
}

impl LatchPin for RecordingPin {
    fn set_high(&mut self) -> Result<(), PinError> {
        self.transitions.push(true);
        if self.fail_high {
            Err(PinError)
        } else {
            Ok(())
        }
    }

    fn set_low(&mut self) -> Result<(), PinError> {
        self.transitions.push(false);
        if self.fail_low {
            Err(PinError)
        } else {
            Ok(())
        }
    }
}

} // verus!
