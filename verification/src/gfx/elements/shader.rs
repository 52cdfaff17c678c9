use vstd::prelude::*;

verus! {

/// Some binding of the shader has group `g` and binding number `j`.
pub open spec fn has_binding(b: Seq<(u32, u32)>, g: int, j: int) -> bool {
    exists|k: int| 0 <= k < b.len() && b[k].0 == g && b[k].1 == j
}

/// Two bindings of the shader have group `g` and binding number `j`.
pub open spec fn has_duplicate(b: Seq<(u32, u32)>, g: int, j: int) -> bool {
    exists|k1: int, k2: int|
        0 <= k1 < k2 < b.len() && b[k1].0 == g && b[k1].1 == j && b[k2].0 == g && b[k2].1 == j
}

/// How many bindings of group `g`, from binding number `j` on, go into its
/// layout: the numbers must follow each other from `j`; a missing number ends
/// the run before it and a number given twice ends it after it. (A run cannot
/// be longer than the list, so counting stops there.)
pub open spec fn run_len(b: Seq<(u32, u32)>, g: int, j: int) -> int
    decreases b.len() - j,
{
    if j >= b.len() || j < 0 || !has_binding(b, g, j) {
        0
    } else if has_duplicate(b, g, j) {
        1
    } else {
        1 + run_len(b, g, j + 1)
    }
}

/// `k` is the first place holding group `g` and binding number `j`.
pub open spec fn first_binding(b: Seq<(u32, u32)>, g: int, j: int, k: int) -> bool {
    &&& 0 <= k < b.len()
    &&& b[k].0 == g
    &&& b[k].1 == j
    &&& forall|i: int| 0 <= i < k ==> !(b[i].0 == g && b[i].1 == j)
}

/// The largest group number among the bindings, or 0 for none.
pub open spec fn max_group(b: Seq<(u32, u32)>) -> int
    decreases b.len(),
{
    if b.len() == 0 {
        0
    } else {
        let m = max_group(b.drop_last());
        if b.last().0 > m {
            b.last().0 as int
        } else {
            m
        }
    }
}

/// How many groups, from group `g` up to group `last`, get a layout: they
/// follow each other until one has no binding that goes into a layout.
pub open spec fn layout_count(b: Seq<(u32, u32)>, g: int, last: int) -> int
    decreases last + 1 - g,
{
    if g > last || run_len(b, g, 0) == 0 {
        0
    } else {
        1 + layout_count(b, g + 1, last)
    }
}

/// Which bindings of a shader, given as (group, binding number) pairs, make up
/// its bind group layouts, by their places in the list. Group 0 is the
/// engine's own; layouts are made for groups 1, 2, ... up to one past the
/// largest group number, stopping at the first group whose layout would be
/// empty. A group's layout takes its bindings in the order of their numbers,
/// from 0 on, as long as the numbers follow each other; a number given twice
/// ends the layout after the first binding with that number.
pub fn bind_group_layout_plan(bindings: &[(u32, u32)]) -> (r: Vec<Vec<usize>>)
    ensures
        r@.len() == layout_count(bindings@, 1, max_group(bindings@) + 1),
        forall|t: int|
            0 <= t < r@.len() ==> (#[trigger] r@[t])@.len() == run_len(bindings@, t + 1, 0),
        forall|t: int, j: int|
            0 <= t < r@.len() && 0 <= j < r@[t]@.len() ==> first_binding(
                bindings@,
                t + 1,
                j,
                #[trigger] r@[t]@[j] as int,
            ),
{
    let mut last: u64 = 0;
    let mut i: usize = 0;
    while i < bindings.len()
        invariant
            0 <= i <= bindings@.len(),
            last == max_group(bindings@.take(i as int)),
        decreases bindings@.len() - i,
    {
        proof {
            assert(bindings@.take(i as int + 1).drop_last() =~= bindings@.take(i as int));
        }
        if bindings[i].0 as u64 > last {
            last = bindings[i].0 as u64;
        }
        i = i + 1;
    }
    proof {
        assert(bindings@.take(bindings@.len() as int) =~= bindings@);
        lemma_max_group_bound(bindings@);
    }
    let last = last + 1;
    let mut r: Vec<Vec<usize>> = Vec::new();
    let mut g: u64 = 1;
    while g <= last
        invariant
            1 <= g <= last + 1,
            last == max_group(bindings@) + 1,
            last <= u32::MAX as u64 + 1,
            r@.len() == g - 1,
            layout_count(bindings@, 1, last as int) == (g - 1) + layout_count(bindings@, g as int, last as int),
            forall|t: int| 0 <= t < r@.len() ==> (#[trigger] r@[t])@.len() == run_len(bindings@, t + 1, 0),
            forall|t: int, j: int|
                0 <= t < r@.len() && 0 <= j < r@[t]@.len() ==> first_binding(
                    bindings@,
                    t + 1,
                    j,
                    #[trigger] r@[t]@[j] as int,
                ),
        ensures
            layout_count(bindings@, g as int, last as int) == 0,
            r@.len() == g - 1,
            layout_count(bindings@, 1, last as int) == (g - 1) + layout_count(bindings@, g as int, last as int),
            forall|t: int| 0 <= t < r@.len() ==> (#[trigger] r@[t])@.len() == run_len(bindings@, t + 1, 0),
            forall|t: int, j: int|
                0 <= t < r@.len() && 0 <= j < r@[t]@.len() ==> first_binding(
                    bindings@,
                    t + 1,
                    j,
                    #[trigger] r@[t]@[j] as int,
                ),
        decreases last + 1 - g,
    {
        let entries = group_run(bindings, g);
        if entries.len() == 0 {
            break;
        }
        r.push(entries);
        g = g + 1;
    }
    r
}

/// The largest group number fits a `u32`.
proof fn lemma_max_group_bound(b: Seq<(u32, u32)>)
    ensures
        0 <= max_group(b) <= u32::MAX,
    decreases b.len(),
{
    if b.len() > 0 {
        lemma_max_group_bound(b.drop_last());
    }
}

/// The places of the bindings that go into the layout of group `g`.
fn group_run(bindings: &[(u32, u32)], g: u64) -> (r: Vec<usize>)
    ensures
        r@.len() == run_len(bindings@, g as int, 0),
        forall|j: int| 0 <= j < r@.len() ==> first_binding(bindings@, g as int, j, #[trigger] r@[j] as int),
{
    let mut r: Vec<usize> = Vec::new();
    let mut j: usize = 0;
    loop
        invariant
            r@.len() == j,
            j <= bindings@.len(),
            run_len(bindings@, g as int, 0) == j + run_len(bindings@, g as int, j as int),
            forall|jj: int| 0 <= jj < r@.len() ==> first_binding(bindings@, g as int, jj, #[trigger] r@[jj] as int),
        ensures
            r@.len() == run_len(bindings@, g as int, 0),
            forall|jj: int| 0 <= jj < r@.len() ==> first_binding(bindings@, g as int, jj, #[trigger] r@[jj] as int),
        decreases bindings@.len() - j,
    {
        if j >= bindings.len() {
            return r;
        }
        let (first, duplicate) = find_binding(bindings, g, j);
        match first {
            None => {
                return r;
            },
            Some(k) => {
                r.push(k);
                if duplicate {
                    return r;
                }
                j = j + 1;
            },
        }
    }
}

/// The first place holding group `g` and binding number `j`, if any, and
/// whether a second one holds them too.
fn find_binding(bindings: &[(u32, u32)], g: u64, j: usize) -> (r: (Option<usize>, bool))
    ensures
        r.0 matches Some(k) ==> first_binding(bindings@, g as int, j as int, k as int),
        r.0 is None ==> !has_binding(bindings@, g as int, j as int),
        r.1 == has_duplicate(bindings@, g as int, j as int),
{
    let mut first: Option<usize> = None;
    let mut duplicate = false;
    let mut i: usize = 0;
    while i < bindings.len()
        invariant
            0 <= i <= bindings@.len(),
            first matches Some(k) ==> k < i && first_binding(bindings@, g as int, j as int, k as int),
            first is None ==> forall|t: int| 0 <= t < i ==> !(bindings@[t].0 == g && bindings@[t].1 == j),
            duplicate == exists|k1: int, k2: int|
                0 <= k1 < k2 < i && bindings@[k1].0 == g && bindings@[k1].1 == j && bindings@[k2].0 == g
                    && bindings@[k2].1 == j,
        decreases bindings@.len() - i,
    {
        let (bg, bb) = bindings[i];
        if bg as u64 == g && bb as usize == j {
            match first {
                None => {
                    first = Some(i);
                },
                Some(k) => {
                    proof {
                        assert(0 <= k < i && bindings@[k as int].0 == g && bindings@[k as int].1 == j);
                    }
                    duplicate = true;
                },
            }
        }
        proof {
            if !(bg as u64 == g && bb as usize == j) || first == Some(i) {
                assert forall|k1: int, k2: int|
                    0 <= k1 < k2 < i + 1 && bindings@[k1].0 == g && bindings@[k1].1 == j && bindings@[k2].0 == g
                        && bindings@[k2].1 == j implies k2 < i by {}
            }
        }
        i = i + 1;
    }
    (first, duplicate)
}

} // verus!
