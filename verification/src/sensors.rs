//! Which temperature sensors, known by their labels, speak for which device.
use vstd::prelude::*;
use crate::text::{contains, lowercase, spec_lowercase, str_contains, lowered_strings};

verus! {

/// What a sensor label is looked up for.
#[derive(Clone, Copy, Debug, PartialEq, Eq, Structural)]
pub enum SensorRole {
    /// The temperature shown for the graphics adapter.
    GpuTemp,
    /// The temperature shown for the disks.
    DiskTemp,
    /// The sensors listed on the processor page.
    CpuSensor,
    /// The sensors listed on the graphics page.
    GpuSensor,
}

/// A lowercased label `l` serves `role`.
pub open spec fn label_has_role(role: SensorRole, l: Seq<char>) -> bool {
    match role {
        SensorRole::GpuTemp => contains(l, "gpu"@) || contains(l, "amdgpu"@) || contains(l, "nvidia"@),
        SensorRole::DiskTemp => contains(l, "nvme"@) || contains(l, "ssd"@) || contains(l, "disk"@),
        SensorRole::CpuSensor => contains(l, "core"@) || contains(l, "cpu"@) || contains(l, "k10"@)
            || contains(l, "tctl"@),
        SensorRole::GpuSensor => contains(l, "gpu"@) || contains(l, "amdgpu"@) || contains(
            l,
            "edge"@,
        ) || contains(l, "vram"@) || (contains(l, "mem"@) && contains(l, "junction"@)),
    }
}

/// Whether the lowercased label `l` serves `role`.
pub fn label_has_role_lc(role: SensorRole, l: &str) -> (r: bool)
    ensures
        r == label_has_role(role, l@),
{
    match role {
        SensorRole::GpuTemp => str_contains(l, "gpu") || str_contains(l, "amdgpu") || str_contains(
            l,
            "nvidia",
        ),
        SensorRole::DiskTemp => str_contains(l, "nvme") || str_contains(l, "ssd") || str_contains(
            l,
            "disk",
        ),
        SensorRole::CpuSensor => str_contains(l, "core") || str_contains(l, "cpu") || str_contains(
            l,
            "k10",
        ) || str_contains(l, "tctl"),
        SensorRole::GpuSensor => str_contains(l, "gpu") || str_contains(l, "amdgpu")
            || str_contains(l, "edge") || str_contains(l, "vram") || (str_contains(l, "mem")
            && str_contains(l, "junction")),
    }
}

/// Whether the sensor labelled `label` serves `role`, judged on the label lowercased.
pub fn label_has_role_of(role: SensorRole, label: &str) -> (r: bool)
    ensures
        r == label_has_role(role, spec_lowercase(label@)),
        vstd::utf8::is_ascii_chars(label@) ==> r == label_has_role(
            role,
            crate::text::ascii_lower(label@),
        ),
{
    let l = lowercase(label);
    label_has_role_lc(role, l.as_str())
}

/// The positions of the lowercased labels that serve `role`, in order.
pub fn sensors_with_role_lc(labels: &Vec<String>, role: SensorRole) -> (r: Vec<usize>)
    ensures
        forall|k: int| 0 <= k < r.len() ==> r@[k] < labels.len() && label_has_role(role, labels@[r@[k] as int]@),
        forall|k: int, m: int| 0 <= k < m < r.len() ==> r@[k] < r@[m],
        forall|i: int| 0 <= i < labels.len() && label_has_role(role, #[trigger] labels@[i]@) ==> r@.contains(i as usize),
{
    let mut r: Vec<usize> = Vec::new();
    let mut i: usize = 0;
    while i < labels.len()
        invariant
            i <= labels.len(),
            forall|k: int| 0 <= k < r.len() ==> r@[k] < i && label_has_role(role, labels@[r@[k] as int]@),
            forall|k: int, m: int| 0 <= k < m < r.len() ==> r@[k] < r@[m],
            forall|j: int| 0 <= j < i && label_has_role(role, #[trigger] labels@[j]@) ==> r@.contains(j as usize),
        decreases labels.len() - i,
    {
        if label_has_role_lc(role, labels[i].as_str()) {
            let ghost before = r@;
            r.push(i);
            assert forall|j: int| 0 <= j < i + 1 && label_has_role(role, #[trigger] labels@[j]@) implies r@.contains(j as usize) by {
                if j < i {
                    let k = choose|k: int| 0 <= k < before.len() && before[k] == j as usize;
                    assert(r@[k] == j as usize);
                } else {
                    assert(r@[before.len() as int] == i);
                }
            }
        }
        i = i + 1;
    }
    r
}

/// The first of the lowercased labels that serves `role`.
pub fn first_with_role_lc(labels: &Vec<String>, role: SensorRole) -> (r: Option<usize>)
    ensures
        match r {
            Some(i) => i < labels.len() && label_has_role(role, labels@[i as int]@) && forall|j: int|
                0 <= j < i ==> !label_has_role(role, #[trigger] labels@[j]@),
            None => forall|j: int| 0 <= j < labels.len() ==> !label_has_role(role, #[trigger] labels@[j]@),
        },
{
    let mut i: usize = 0;
    while i < labels.len()
        invariant
            i <= labels.len(),
            forall|j: int| 0 <= j < i ==> !label_has_role(role, #[trigger] labels@[j]@),
        decreases labels.len() - i,
    {
        if label_has_role_lc(role, labels[i].as_str()) {
            return Some(i);
        }
        i = i + 1;
    }
    None
}

/// The first sensor, by its label lowercased, that serves `role`.
pub fn first_with_role(labels: &Vec<String>, role: SensorRole) -> (r: Option<usize>)
    ensures
        crate::text::ascii_lowered(crate::text::string_views(labels@)),
        ({
            let lows = crate::text::lowered(crate::text::string_views(labels@));
            match r {
                Some(i) => i < labels.len() && label_has_role(role, lows[i as int]) && forall|j: int|
                    0 <= j < i ==> !label_has_role(role, #[trigger] lows[j]),
                None => forall|j: int| 0 <= j < labels.len() ==> !label_has_role(role, #[trigger] lows[j]),
            }
        }),
{
    let lows = lowered_strings(labels);
    proof {
        assert(crate::text::string_views(lows@).len() == lows@.len());
        assert(crate::text::string_views(labels@).len() == labels@.len());
        assert(crate::text::lowered(crate::text::string_views(labels@)).len() == labels@.len());
        assert forall|j: int| 0 <= j < labels.len() implies crate::text::lowered(crate::text::string_views(labels@))[j] == #[trigger] lows@[j]@ by {
            assert(crate::text::string_views(lows@)[j] == lows@[j]@);
        }
    }
    first_with_role_lc(&lows, role)
}

/// The positions of the sensors whose labels, lowercased, serve `role`, in order.
pub fn sensors_with_role(labels: &Vec<String>, role: SensorRole) -> (r: Vec<usize>)
    ensures
        crate::text::ascii_lowered(crate::text::string_views(labels@)),
        ({
            let lows = crate::text::lowered(crate::text::string_views(labels@));
            &&& forall|k: int| 0 <= k < r.len() ==> r@[k] < labels.len() && label_has_role(role, lows[r@[k] as int])
            &&& forall|k: int, m: int| 0 <= k < m < r.len() ==> r@[k] < r@[m]
            &&& forall|i: int| 0 <= i < labels.len() && label_has_role(role, #[trigger] lows[i]) ==> r@.contains(i as usize)
        }),
{
    let lows = lowered_strings(labels);
    proof {
        assert(crate::text::string_views(lows@).len() == lows@.len());
        assert(crate::text::string_views(labels@).len() == labels@.len());
        assert(crate::text::lowered(crate::text::string_views(labels@)).len() == labels@.len());
        assert forall|j: int| 0 <= j < labels.len() implies crate::text::lowered(crate::text::string_views(labels@))[j] == #[trigger] lows@[j]@ by {
            assert(crate::text::string_views(lows@)[j] == lows@[j]@);
        }
    }
    sensors_with_role_lc(&lows, role)
}

/// Law: which words in a lowercased label make it serve each role: the GPU
/// temperature, a mention of "gpu", "amdgpu" or "nvidia"; the disk temperature,
/// "nvme", "ssd" or "disk"; the processor sensors, "core", "cpu", "k10" or "tctl";
/// the graphics sensors, "gpu", "amdgpu", "edge" or "vram", or both "mem" and
/// "junction".
pub proof fn lemma_sensor_role_words(l: Seq<char>)
    ensures
        label_has_role(SensorRole::GpuTemp, l) <==> (contains(l, "gpu"@) || contains(l, "amdgpu"@)
            || contains(l, "nvidia"@)),
        label_has_role(SensorRole::DiskTemp, l) <==> (contains(l, "nvme"@) || contains(l, "ssd"@)
            || contains(l, "disk"@)),
        label_has_role(SensorRole::CpuSensor, l) <==> (contains(l, "core"@) || contains(l, "cpu"@)
            || contains(l, "k10"@) || contains(l, "tctl"@)),
        label_has_role(SensorRole::GpuSensor, l) <==> (contains(l, "gpu"@) || contains(
            l,
            "amdgpu"@,
        ) || contains(l, "edge"@) || contains(l, "vram"@) || (contains(l, "mem"@) && contains(
            l,
            "junction"@,
        ))),
{
}

} // verus!
