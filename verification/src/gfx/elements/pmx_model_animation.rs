use vstd::prelude::*;

verus! {

/// The key frames around a frame of an animation, by their places in the
/// animation's key frame list, and how far the frame lies from the current
/// key frame towards the next one: `weight_numerator / weight_denominator`.
#[derive(Debug, Clone, Copy, PartialEq, Eq)]
pub struct CurrentKeyFrame {
    pub current: Option<usize>,
    pub next: Option<usize>,
    pub weight_numerator: u32,
    pub weight_denominator: u32,
}

/// The frame indices never decrease along the list.
pub open spec fn frames_sorted(frames: Seq<u32>) -> bool {
    forall|a: int, b: int| 0 <= a <= b < frames.len() ==> frames[a] <= frames[b]
}

/// The place `k` and the one after it, if that one exists.
pub open spec fn at_and_after(frames: Seq<u32>, k: int) -> (Option<usize>, Option<usize>) {
    (
        if k < frames.len() { Some(k as usize) } else { None },
        if k + 1 < frames.len() { Some((k + 1) as usize) } else { None },
    )
}

/// Selects the key frames for `frame`: a key frame at exactly that frame (the
/// first such) and the one after it; before the first key frame, the first
/// two; past the last, the last alone; else the two key frames around it, with
/// the part of the way between them that `frame` has gone.
pub fn current_key_frame(frames: &[u32], frame: u32) -> (r: CurrentKeyFrame)
    requires
        frames_sorted(frames@),
    ensures
        r.weight_denominator > 0,
        frames@.contains(frame) ==> exists|k: int|
            #![trigger frames@[k]]
            0 <= k < frames@.len() && frames@[k] == frame && (forall|j: int| 0 <= j < k ==> frames@[j] < frame)
                && (r.current, r.next) == at_and_after(frames@, k) && r.weight_numerator == 0
                && r.weight_denominator == 1,
        !frames@.contains(frame) && (frames@.len() == 0 || frame < frames@[0]) ==> (r.current, r.next)
            == at_and_after(frames@, 0) && r.weight_numerator == 0 && r.weight_denominator == 1,
        !frames@.contains(frame) && frames@.len() > 0 && frames@[frames@.len() - 1] < frame ==> r.current
            == Some((frames@.len() - 1) as usize) && r.next is None && r.weight_numerator == 0
            && r.weight_denominator == 1,
        !frames@.contains(frame) && frames@.len() > 0 && frames@[0] < frame && frame
            < frames@[frames@.len() - 1] ==> exists|k: int|
            #![trigger frames@[k]]
            0 <= k && k + 1 < frames@.len() && frames@[k] < frame < frames@[k + 1] && r.current == Some(
                k as usize,
            ) && r.next == Some((k + 1) as usize) && r.weight_numerator == frame - frames@[k]
                && r.weight_denominator == frames@[k + 1] - frames@[k],
{
    // The first place whose frame is not below `frame`.
    let mut lo: usize = 0;
    let mut hi: usize = frames.len();
    while lo < hi
        invariant
            0 <= lo <= hi <= frames@.len(),
            frames_sorted(frames@),
            forall|j: int| 0 <= j < lo ==> frames@[j] < frame,
            forall|j: int| hi <= j < frames@.len() ==> frames@[j] >= frame,
        decreases hi - lo,
    {
        let mid = lo + (hi - lo) / 2;
        if frames[mid] < frame {
            lo = mid + 1;
        } else {
            hi = mid;
        }
    }
    let p = lo;
    let n = frames.len();
    if p < n && frames[p] == frame {
        return CurrentKeyFrame {
            current: Some(p),
            next: if p + 1 < n { Some(p + 1) } else { None },
            weight_numerator: 0,
            weight_denominator: 1,
        };
    }
    proof {
        assert(!frames@.contains(frame)) by {
            if frames@.contains(frame) {
                let k = choose|k: int| 0 <= k < frames@.len() && frames@[k] == frame;
                if k < p {
                } else {
                    assert(frames@[p as int] <= frames@[k]);
                }
            }
        }
    }
    if p == 0 {
        CurrentKeyFrame {
            current: if n > 0 { Some(0) } else { None },
            next: if n > 1 { Some(1) } else { None },
            weight_numerator: 0,
            weight_denominator: 1,
        }
    } else if p == n {
        CurrentKeyFrame { current: Some(n - 1), next: None, weight_numerator: 0, weight_denominator: 1 }
    } else {
        let current = frames[p - 1];
        let next = frames[p];
        proof {
            assert(current < frame < next);
        }
        CurrentKeyFrame {
            current: Some(p - 1),
            next: Some(p),
            weight_numerator: frame - current,
            weight_denominator: next - current,
        }
    }
}

} // verus!
