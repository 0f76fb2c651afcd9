use vstd::prelude::*;
use crate::workload::{ceil_div, Workload};

verus! {

/// Entries in one bind group.
pub const MAX_BINDINGS_PER_GROUP: usize = 4;

/// What a binding entry exposes to the kernel.
#[derive(Debug, Clone, Copy, PartialEq, Eq)]
pub enum BindSource {
    /// Segment `segment` of tensor `tensor`.
    Segment { tensor: usize, segment: usize },
    /// The uniform buffer of the kernel's metadata.
    Uniform,
}

/// One binding entry: its bind group, its index within the group, and what it binds.
#[derive(Debug, Clone, Copy, PartialEq, Eq)]
pub struct BindingSlot {
    pub group: usize,
    pub binding: usize,
    pub source: BindSource,
}

/// The segments of all tensors in order: tensor after tensor, segment after segment.
pub open spec fn flat_sources(segments: Seq<usize>) -> Seq<BindSource>
    decreases segments.len(),
{
    if segments.len() == 0 {
        Seq::empty()
    } else {
        flat_sources(segments.drop_last()).add(
            Seq::new(
                segments.last() as nat,
                |k: int|
                    BindSource::Segment { tensor: (segments.len() - 1) as usize, segment: k as usize },
            ),
        )
    }
}

/// The tensor entries chunked into groups of `MAX_BINDINGS_PER_GROUP`, entry `j` at
/// binding `j % 4` of group `j / 4`, followed by the uniform buffer alone in one last group.
pub open spec fn spec_plan(segments: Seq<usize>) -> Seq<BindingSlot> {
    let f = flat_sources(segments);
    let n = f.len() as int;
    Seq::new(
        (n + 1) as nat,
        |j: int|
            if j < n {
                BindingSlot {
                    group: (j / MAX_BINDINGS_PER_GROUP as int) as usize,
                    binding: (j % MAX_BINDINGS_PER_GROUP as int) as usize,
                    source: f[j],
                }
            } else {
                BindingSlot {
                    group: ceil_div(n, MAX_BINDINGS_PER_GROUP as int) as usize,
                    binding: 0,
                    source: BindSource::Uniform,
                }
            },
    )
}

/// Lays out the binding entries of tensors with `segments[t]` segments each, and the
/// uniform buffer last.
pub fn plan_bindings(segments: &[usize]) -> (r: Vec<BindingSlot>)
    requires
        flat_sources(segments@).len() < usize::MAX,
    ensures
        r@ == spec_plan(segments@),
{
    let ghost segs = segments@;
    let mut out: Vec<BindingSlot> = Vec::new();
    let mut j: usize = 0;
    let mut t: usize = 0;
    proof {
        assert(segs.subrange(0, 0) =~= Seq::<usize>::empty());
        lemma_flat_prefix_len(segs, 0);
    }
    while t < segments.len()
        invariant
            segs == segments@,
            t <= segs.len(),
            flat_sources(segs).len() < usize::MAX,
            j == flat_sources(segs.subrange(0, t as int)).len(),
            j <= flat_sources(segs).len(),
            out@.len() == j,
            forall|m: int|
                0 <= m < j ==> #[trigger] out@[m] == (BindingSlot {
                    group: (m / 4) as usize,
                    binding: (m % 4) as usize,
                    source: flat_sources(segs.subrange(0, t as int))[m],
                }),
        decreases segs.len() - t,
    {
        let ghost before = flat_sources(segs.subrange(0, t as int));
        let ghost run = Seq::new(
            segs[t as int] as nat,
            |k: int| BindSource::Segment { tensor: t, segment: k as usize },
        );
        proof {
            let sub = segs.subrange(0, t + 1);
            assert(sub.drop_last() =~= segs.subrange(0, t as int));
            assert(flat_sources(sub) == before.add(run));
            lemma_flat_prefix_len(segs, t + 1);
        }
        let count = segments[t];
        let mut k: usize = 0;
        while k < count
            invariant
                segs == segments@,
                t < segs.len(),
                count == segs[t as int],
                run == Seq::new(
                    segs[t as int] as nat,
                    |k: int| BindSource::Segment { tensor: t, segment: k as usize },
                ),
                before.len() + count <= flat_sources(segs).len(),
                flat_sources(segs).len() < usize::MAX,
                k <= count,
                j == before.len() + k,
                out@.len() == j,
                forall|m: int|
                    0 <= m < j ==> #[trigger] out@[m] == (BindingSlot {
                        group: (m / 4) as usize,
                        binding: (m % 4) as usize,
                        source: before.add(run)[m],
                    }),
            decreases count - k,
        {
            out.push(
                BindingSlot {
                    group: j / MAX_BINDINGS_PER_GROUP,
                    binding: j % MAX_BINDINGS_PER_GROUP,
                    source: BindSource::Segment { tensor: t, segment: k },
                },
            );
            j = j + 1;
            k = k + 1;
        }
        t = t + 1;
    }
    proof {
        assert(segs.subrange(0, segs.len() as int) =~= segs);
    }
    let groups = Workload::ceil(j, MAX_BINDINGS_PER_GROUP);
    out.push(BindingSlot { group: groups, binding: 0, source: BindSource::Uniform });
    assert(out@ =~= spec_plan(segs));
    out
}

proof fn lemma_flat_prefix_len(segs: Seq<usize>, t: int)
    requires
        0 <= t <= segs.len(),
    ensures
        flat_sources(segs.subrange(0, t)).len() <= flat_sources(segs).len(),
    decreases segs.len() - t,
{
    if t < segs.len() {
        lemma_flat_prefix_len(segs, t + 1);
        let sub = segs.subrange(0, t + 1);
        assert(sub.drop_last() =~= segs.subrange(0, t));
    } else {
        assert(segs.subrange(0, t) =~= segs);
    }
}

} // verus!
