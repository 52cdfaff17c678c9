use vstd::prelude::*;

verus! {

/// The kind of device behind a graphics adapter.
#[derive(Debug, Clone, Copy, PartialEq, Eq, Hash)]
pub enum AdapterDeviceType {
    Other,
    IntegratedGpu,
    DiscreteGpu,
    VirtualGpu,
    Cpu,
}

/// The graphics backend of an adapter, as far as the choice cares.
#[derive(Debug, Clone, Copy, PartialEq, Eq, Hash)]
pub enum AdapterBackend {
    Metal,
    Dx12,
    Vulkan,
    Other,
}

/// What the choice of an adapter reads of it: whether the window's surface
/// offers it any texture format, its device type and its backend.
#[derive(Debug, Clone, Copy, PartialEq, Eq, Hash)]
pub struct AdapterCandidate {
    pub has_surface_formats: bool,
    pub device_type: AdapterDeviceType,
    pub backend: AdapterBackend,
}

/// How much an adapter is preferred: discrete over integrated over virtual
/// over other devices over CPUs, and the dedicated backends slightly over
/// Vulkan, which is often offered beside them.
pub open spec fn adapter_score(a: AdapterCandidate) -> int {
    (match a.device_type {
        AdapterDeviceType::Other => 0int,
        AdapterDeviceType::IntegratedGpu => 10int,
        AdapterDeviceType::DiscreteGpu => 20int,
        AdapterDeviceType::VirtualGpu => 5int,
        AdapterDeviceType::Cpu => -10int,
    }) + (match a.backend {
        AdapterBackend::Metal => 2int,
        AdapterBackend::Dx12 => 2int,
        AdapterBackend::Vulkan => 1int,
        AdapterBackend::Other => 0int,
    })
}

/// The adapters the surface can present from, in order.
pub open spec fn usable_adapters(adapters: Seq<AdapterCandidate>) -> Seq<AdapterCandidate> {
    adapters.filter(|a: AdapterCandidate| a.has_surface_formats)
}

fn score(a: &AdapterCandidate) -> (r: i32)
    ensures
        r == adapter_score(*a),
{
    let device_score: i32 = match a.device_type {
        AdapterDeviceType::Other => 0,
        AdapterDeviceType::IntegratedGpu => 10,
        AdapterDeviceType::DiscreteGpu => 20,
        AdapterDeviceType::VirtualGpu => 5,
        AdapterDeviceType::Cpu => -10,
    };
    let backend_score: i32 = match a.backend {
        AdapterBackend::Metal => 2,
        AdapterBackend::Dx12 => 2,
        AdapterBackend::Vulkan => 1,
        AdapterBackend::Other => 0,
    };
    device_score + backend_score
}

/// Chooses an adapter: among those the surface can present from, the one with
/// the highest score, the last of them on a tie. The result is its place in
/// the list of usable adapters; `None` when no adapter is usable.
pub fn select_adapter(adapters: &[AdapterCandidate]) -> (r: Option<usize>)
    ensures
        r is None <==> usable_adapters(adapters@).len() == 0,
        r matches Some(k) ==> {
            let usable = usable_adapters(adapters@);
            &&& k < usable.len()
            &&& forall|j: int| 0 <= j < usable.len() ==> adapter_score(usable[j]) <= adapter_score(usable[k as int])
            &&& forall|j: int| k < j < usable.len() ==> adapter_score(usable[j]) < adapter_score(usable[k as int])
        },
{
    let mut usable: Vec<AdapterCandidate> = Vec::new();
    let mut i: usize = 0;
    while i < adapters.len()
        invariant
            0 <= i <= adapters@.len(),
            usable@ == usable_adapters(adapters@.take(i as int)),
        decreases adapters@.len() - i,
    {
        proof {
            reveal(Seq::filter);
            assert(adapters@.take(i as int + 1).drop_last() =~= adapters@.take(i as int));
        }
        if adapters[i].has_surface_formats {
            usable.push(adapters[i]);
        }
        i = i + 1;
    }
    proof {
        assert(adapters@.take(adapters@.len() as int) =~= adapters@);
    }
    if usable.len() == 0 {
        return None;
    }
    let mut best: usize = 0;
    let mut best_score: i32 = score(&usable[0]);
    let mut j: usize = 1;
    while j < usable.len()
        invariant
            1 <= j <= usable@.len(),
            best < j,
            best_score == adapter_score(usable@[best as int]),
            forall|t: int| 0 <= t < j ==> adapter_score(usable@[t]) <= best_score,
            forall|t: int| best < t < j ==> adapter_score(usable@[t]) < best_score,
        decreases usable@.len() - j,
    {
        let s = score(&usable[j]);
        if s >= best_score {
            best = j;
            best_score = s;
        }
        j = j + 1;
    }
    Some(best)
}

} // verus!
