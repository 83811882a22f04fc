//! The assembled ingestion pipeline for one byte stream: the frame
//! extractor feeds delivered frames through checksum validation and
//! decoding into the monitor, one stream byte at a time.

use vstd::prelude::*;
use crate::checksum::FrameError;
use crate::checksum::checksum_ok;
use crate::checksum::validate_frame;
use crate::decode::DecodeError;
use crate::decode::SensorReading;
use crate::decode::decode;
use crate::decode::identity_missing;
use crate::decode::recognized;
use crate::frame::FrameExtractor;
use crate::frame::Model;
use crate::frame::initial_model;
use crate::frame::model_wf;
use crate::frame::spec_step;
use crate::monitor::Monitor;
use crate::monitor::Quantities;
use crate::monitor::mac_key;
use crate::monitor::quantities_of;
use crate::registry::TTL_SECONDS;
use crate::registry::touched;

verus! {

/// What became of one delivered frame.
#[derive(Clone, Copy, Debug, PartialEq, Eq)]
pub enum FrameOutcome {
    /// The frame cannot carry its own checksum field; dropped.
    TooShort,
    /// The embedded checksum disagrees with the payload; dropped.
    ChecksumMismatch,
    /// Not the supported broadcast layout; silently ignored.
    Unrecognized,
    /// The reserved all-ones identity; dropped whole.
    MissingIdentity,
    /// A decoded reading: the registry was refreshed and the identity's
    /// metrics republished.
    Accepted(SensorReading),
}

/// How one delivered frame relates the monitor's state before and after
/// it, and the reported outcome: dropped frames leave the state
/// untouched, and an accepted frame refreshes its identity's deadline
/// and republishes its quantity slots.
pub open spec fn frame_applied(
    pre_reg: Map<u64, u64>,
    pre_book: Map<u64, Quantities>,
    post_reg: Map<u64, u64>,
    post_book: Map<u64, Quantities>,
    msg: Seq<u8>,
    now: u64,
    r: FrameOutcome,
) -> bool {
    &&& (msg.len() < 4 ==> r == FrameOutcome::TooShort && post_reg == pre_reg && post_book
        == pre_book)
    &&& (msg.len() >= 4 && !checksum_ok(msg) ==> r == FrameOutcome::ChecksumMismatch && post_reg
        == pre_reg && post_book == pre_book)
    &&& (checksum_ok(msg) && !recognized(msg.skip(4)) ==> r == FrameOutcome::Unrecognized
        && post_reg == pre_reg && post_book == pre_book)
    &&& (checksum_ok(msg) && recognized(msg.skip(4)) && identity_missing(msg.skip(4)) ==> r
        == FrameOutcome::MissingIdentity && post_reg == pre_reg && post_book == pre_book)
    &&& (checksum_ok(msg) && recognized(msg.skip(4)) && !identity_missing(msg.skip(4))
        ==> (match r {
        FrameOutcome::Accepted(rd) => {
            &&& rd.decodes(msg.skip(4))
            &&& post_reg == touched(pre_reg, mac_key(msg.skip(4).subrange(20, 26)), now)
            &&& post_book == pre_book.insert(
                mac_key(msg.skip(4).subrange(20, 26)),
                quantities_of(rd),
            )
        },
        _ => false,
    }))
}

/// Validates, decodes and applies one delivered frame, reporting what
/// became of it; a dropped frame leaves the monitor untouched.
pub fn handle_frame(monitor: &mut Monitor, msg: &[u8], now: u64) -> (r: FrameOutcome)
    requires
        old(monitor).wf(),
        old(monitor).mirrored(),
        now + TTL_SECONDS <= u64::MAX,
    ensures
        final(monitor).wf(),
        final(monitor).mirrored(),
        frame_applied(
            old(monitor).registry_view(),
            old(monitor).metrics_view(),
            final(monitor).registry_view(),
            final(monitor).metrics_view(),
            msg@,
            now,
            r,
        ),
{
    match validate_frame(msg) {
        Err(FrameError::FrameTooShort) => FrameOutcome::TooShort,
        Err(FrameError::ChecksumMismatch) => FrameOutcome::ChecksumMismatch,
        Ok(payload) => match decode(payload.as_slice()) {
            Err(DecodeError::UnrecognizedFormat) => FrameOutcome::Unrecognized,
            Err(DecodeError::MissingIdentity) => FrameOutcome::MissingIdentity,
            Ok(reading) => {
                monitor.observe(&reading, now);
                FrameOutcome::Accepted(reading)
            },
        },
    }
}

/// One byte stream's pipeline: a frame extractor coupled to the monitor.
pub struct Station {
    extractor: FrameExtractor,
    monitor: Monitor,
}

impl Station {
    /// The extractor's abstract scanner state.
    pub closed spec fn extractor_model(&self) -> Model {
        self.extractor@
    }

    /// The registry as a map from identity key to expiry deadline.
    pub closed spec fn registry_view(&self) -> Map<u64, u64> {
        self.monitor.registry_view()
    }

    /// The published metrics as a map from identity key to its slots.
    pub closed spec fn metrics_view(&self) -> Map<u64, Quantities> {
        self.monitor.metrics_view()
    }

    /// The pipeline is well formed: the extractor is within its cap and
    /// the monitor's stores are well formed and mirrored.
    pub closed spec fn wf(&self) -> bool {
        model_wf(self.extractor@) && self.monitor.wf() && self.monitor.mirrored()
    }

    /// An idle pipeline with nothing registered or published.
    pub fn new() -> (r: Self)
        ensures
            r.wf(),
            r.extractor_model() == initial_model(),
            r.registry_view() == Map::<u64, u64>::empty(),
            r.metrics_view() == Map::<u64, Quantities>::empty(),
    {
        Station { extractor: FrameExtractor::new(), monitor: Monitor::new() }
    }

    /// Consumes one stream byte; when it completes a frame, the frame
    /// runs through validation and decoding, and the outcome is
    /// reported. Bytes that complete no frame change no registry or
    /// metric state.
    pub fn ingest_byte(&mut self, b: u8, now: u64) -> (r: Option<FrameOutcome>)
        requires
            old(self).wf(),
            now + TTL_SECONDS <= u64::MAX,
        ensures
            final(self).wf(),
            final(self).extractor_model() == spec_step(old(self).extractor_model(), b).0,
            r is Some <==> spec_step(old(self).extractor_model(), b).1 is Some,
            r is None ==> final(self).registry_view() == old(self).registry_view() && final(self).metrics_view() == old(self).metrics_view(),
            r is Some ==> frame_applied(
                old(self).registry_view(),
                old(self).metrics_view(),
                final(self).registry_view(),
                final(self).metrics_view(),
                spec_step(old(self).extractor_model(), b).1.unwrap(),
                now,
                r.unwrap(),
            ),
    {
        let emitted = self.extractor.step(b);
        match emitted {
            Some(frame) => Some(handle_frame(&mut self.monitor, frame.as_slice(), now)),
            None => None,
        }
    }

    /// The identity's published quantity slots, if any.
    pub fn metrics_of(&self, key: u64) -> (r: Option<Quantities>)
        requires
            self.wf(),
        ensures
            r == if self.metrics_view().contains_key(key) {
                Some(self.metrics_view()[key])
            } else {
                None::<Quantities>
            },
    {
        self.monitor.metrics_of(key)
    }

    /// The identity's registry deadline, if it is registered.
    pub fn deadline_of(&self, key: u64) -> (r: Option<u64>)
        requires
            self.wf(),
        ensures
            r == if self.registry_view().contains_key(key) {
                Some(self.registry_view()[key])
            } else {
                None::<u64>
            },
    {
        self.monitor.deadline_of(key)
    }

    /// Sweeps expired identities out of the registry, clearing their
    /// metrics in the same step, and returns the removed identities.
    pub fn sweep(&mut self, now: u64) -> (removed: Vec<u64>)
        requires
            old(self).wf(),
        ensures
            final(self).wf(),
            final(self).extractor_model() == old(self).extractor_model(),
            forall|k: u64|
                final(self).registry_view().contains_key(k)
                    <==> crate::registry::survives(old(self).registry_view(), k, now),
            forall|k: u64|
                #[trigger] final(self).registry_view().contains_key(k)
                    ==> final(self).registry_view()[k] == old(self).registry_view()[k],
            forall|k: u64|
                removed@.contains(k) <==> (old(self).registry_view().contains_key(k) && old(
                    self,
                ).registry_view()[k] < now),
            forall|i: int, j: int| 0 <= i < j < removed@.len() ==> removed@[i] != removed@[j],
            forall|k: u64|
                final(self).metrics_view().contains_key(k) <==> (old(
                    self,
                ).metrics_view().contains_key(k) && crate::registry::survives(
                    old(self).registry_view(),
                    k,
                    now,
                )),
            forall|k: u64|
                #[trigger] final(self).metrics_view().contains_key(k)
                    ==> final(self).metrics_view()[k] == old(self).metrics_view()[k],
    {
        self.monitor.sweep(now)
    }
}

} // verus!
