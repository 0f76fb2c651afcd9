use vstd::prelude::*;

verus! {

/// Largest buffer size asked of the device on the first request: `2^30 - 1` bytes.
pub const RELAXED_MAX_BUFFER_SIZE: u64 = 0x3FFF_FFFF;

/// Class of a physical adapter.
#[derive(Debug, Clone, Copy, PartialEq, Eq)]
pub enum DeviceKind {
    DiscreteGpu,
    Other,
    IntegratedGpu,
    VirtualGpu,
    Cpu,
}

/// Preference of an adapter class: discrete above other above integrated above virtual
/// above software.
pub open spec fn spec_score(kind: DeviceKind) -> int {
    match kind {
        DeviceKind::DiscreteGpu => 5,
        DeviceKind::Other => 4,
        DeviceKind::IntegratedGpu => 3,
        DeviceKind::VirtualGpu => 2,
        DeviceKind::Cpu => 1,
    }
}

/// Preference of an adapter class.
pub fn adapter_score(kind: DeviceKind) -> (r: u32)
    ensures
        r == spec_score(kind),
{
    match kind {
        DeviceKind::DiscreteGpu => 5,
        DeviceKind::Other => 4,
        DeviceKind::IntegratedGpu => 3,
        DeviceKind::VirtualGpu => 2,
        DeviceKind::Cpu => 1,
    }
}

/// The index of the adapter to use: one with the highest score, the first of them where
/// several share it; nothing when there is no adapter.
pub fn select_adapter(kinds: &[DeviceKind]) -> (r: Option<usize>)
    ensures
        r is None <==> kinds@.len() == 0,
        r matches Some(i) ==> i < kinds@.len()
            && (forall|j: int| 0 <= j < kinds@.len() ==> spec_score(#[trigger] kinds@[j]) <= spec_score(kinds@[i as int]))
            && (forall|j: int| 0 <= j < i ==> spec_score(#[trigger] kinds@[j]) < spec_score(kinds@[i as int])),
{
    let mut best: Option<usize> = None;
    let mut best_score: u32 = 0;
    let mut i: usize = 0;
    while i < kinds.len()
        invariant
            i <= kinds@.len(),
            best is None <==> i == 0,
            best is None ==> best_score == 0,
            best matches Some(b) ==> b < i && best_score == spec_score(kinds@[b as int])
                && (forall|j: int| 0 <= j < i ==> spec_score(#[trigger] kinds@[j]) <= best_score)
                && (forall|j: int| 0 <= j < b ==> spec_score(#[trigger] kinds@[j]) < best_score),
        decreases kinds@.len() - i,
    {
        let score = adapter_score(kinds[i]);
        if score > best_score {
            best = Some(i);
            best_score = score;
        }
        i = i + 1;
    }
    best
}

/// Limits asked of the device.
#[derive(Debug, Clone, Copy, PartialEq, Eq)]
pub enum LimitsChoice {
    /// Large buffers, up to `RELAXED_MAX_BUFFER_SIZE`.
    Relaxed,
    /// The limits that the adapter reports.
    AdapterDefault,
}

/// What to do next while acquiring a device.
#[derive(Debug, Clone, Copy, PartialEq, Eq)]
pub enum RequestStep {
    /// Request a device with these limits.
    Request(LimitsChoice),
    /// The device is there.
    Ready,
    /// No device could be had: the run stops.
    Fatal,
}

/// The first request asks for the relaxed limits.
pub fn first_request() -> (r: RequestStep)
    ensures
        r == RequestStep::Request(LimitsChoice::Relaxed),
{
    RequestStep::Request(LimitsChoice::Relaxed)
}

/// The step after a request with `tried` limits: done when it succeeded; after a failure
/// with the relaxed limits, one more request with the adapter's limits; after a failure
/// with those, a fatal stop.
pub fn after_request(tried: LimitsChoice, succeeded: bool) -> (r: RequestStep)
    ensures
        succeeded ==> r == RequestStep::Ready,
        !succeeded && tried == LimitsChoice::Relaxed ==> r == RequestStep::Request(
            LimitsChoice::AdapterDefault,
        ),
        !succeeded && tried == LimitsChoice::AdapterDefault ==> r == RequestStep::Fatal,
{
    if succeeded {
        RequestStep::Ready
    } else {
        match tried {
            LimitsChoice::Relaxed => RequestStep::Request(LimitsChoice::AdapterDefault),
            LimitsChoice::AdapterDefault => RequestStep::Fatal,
        }
    }
}

} // verus!
