//! Snapshot segments: memory regions recovered from a crash dump, merged
//! into larger spans wherever one region ends exactly where the next one
//! begins.  Merging reduces the number of candidates a containment query
//! must scan; regions separated by a gap stay separate.

use vstd::prelude::*;

verus! {

/// A read-only span of captured memory at a virtual address.
#[derive(Debug, Clone)]
pub struct Segment {
    /// The virtual memory address where this span begins.
    pub address: u64,
    /// The captured bytes.
    pub data: Vec<u8>,
}

/// Mathematical model of a segment: its address and its byte sequence.
#[verifier::ext_equal]
pub ghost struct SegmentModel {
    pub address: u64,
    pub data: Seq<u8>,
}

impl View for Segment {
    type V = SegmentModel;

    open spec fn view(&self) -> SegmentModel {
        SegmentModel { address: self.address, data: self.data@ }
    }
}

/// The models of a sequence of segments.
pub open spec fn segment_models(v: Seq<Segment>) -> Seq<SegmentModel> {
    v.map_values(|s: Segment| s@)
}

/// One region ends exactly where the next begins.
pub open spec fn contiguous(a: SegmentModel, b: SegmentModel) -> bool {
    a.address + a.data.len() == b.address
}

/// Adjacent regions merged front to back: whenever a region ends exactly
/// at the next region's address, the two become one span holding both
/// byte runs; anything else is kept as it is.
pub open spec fn spec_merge(rs: Seq<SegmentModel>) -> Seq<SegmentModel>
    decreases rs.len(),
{
    if rs.len() <= 1 {
        rs
    } else if contiguous(rs[0], rs[1]) {
        spec_merge(
            seq![SegmentModel { address: rs[0].address, data: rs[0].data + rs[1].data }]
                + rs.skip(2),
        )
    } else {
        seq![rs[0]] + spec_merge(rs.drop_first())
    }
}

/// Two regions that are byte-contiguous merge into one segment holding
/// both byte runs.
pub proof fn lemma_merge_contiguous(a: SegmentModel, b: SegmentModel)
    requires
        contiguous(a, b),
    ensures
        spec_merge(seq![a, b]) == seq![SegmentModel { address: a.address, data: a.data + b.data }],
{
    let m = SegmentModel { address: a.address, data: a.data + b.data };
    let rs = seq![a, b];
    assert(rs[0] == a && rs[1] == b);
    assert(seq![m] + rs.skip(2) =~= seq![m]);
    assert(spec_merge(seq![m]) == seq![m]);
}

/// Two regions that do not touch stay separate segments.
pub proof fn lemma_merge_gap(a: SegmentModel, b: SegmentModel)
    requires
        !contiguous(a, b),
    ensures
        spec_merge(seq![a, b]) == seq![a, b],
{
    let rs = seq![a, b];
    assert(rs[0] == a && rs[1] == b);
    assert(rs.drop_first() =~= seq![b]);
    assert(spec_merge(seq![b]) == seq![b]);
    assert(seq![a] + seq![b] =~= seq![a, b]);
}

/// Merges byte-contiguous neighbors in the given region list.
pub fn merge_segments(regions: Vec<Segment>) -> (out: Vec<Segment>)
    ensures
        segment_models(out@) == spec_merge(segment_models(regions@)),
{
    let ghost m = segment_models(regions@);
    let mut rest = regions;
    let mut out: Vec<Segment> = Vec::new();
    if rest.len() == 0 {
        proof {
            assert(segment_models(rest@) =~= m);
            assert(segment_models(out@) =~= spec_merge(m));
        }
        return out;
    }
    let mut current = rest.remove(0);
    proof {
        assert(segment_models(rest@) =~= m.drop_first());
        assert(current@ == m[0]);
        assert(seq![current@] + segment_models(rest@) =~= m);
    }
    while rest.len() > 0
        invariant
            spec_merge(m) == segment_models(out@) + spec_merge(
                seq![current@] + segment_models(rest@),
            ),
        decreases rest@.len(),
    {
        let ghost pend = seq![current@] + segment_models(rest@);
        let ghost prev_rest = rest@;
        let next = rest.remove(0);
        proof {
            assert(segment_models(rest@) =~= segment_models(prev_rest).drop_first());
            assert(next@ == segment_models(prev_rest)[0]);
            assert(pend[0] == current@);
            assert(pend[1] == next@);
            assert(pend.len() >= 2);
            assert(pend.skip(2) =~= segment_models(rest@));
            assert(pend.drop_first() =~= segment_models(prev_rest));
        }
        let next_len = next.data.len() as u64;
        if current.data.len() as u64 <= u64::MAX - (current.address as u64)
            && current.address + current.data.len() as u64 == next.address {
            proof {
                assert(contiguous(pend[0], pend[1]));
            }
            let mut nd = next.data;
            let ghost cur_before = current@;
            current.data.append(&mut nd);
            proof {
                assert(current@.data =~= cur_before.data + next@.data);
                assert(spec_merge(pend) == spec_merge(
                    seq![SegmentModel { address: pend[0].address, data: pend[0].data + pend[1].data }]
                        + pend.skip(2),
                ));
                assert(seq![current@] + segment_models(rest@) =~= seq![
                    SegmentModel { address: pend[0].address, data: pend[0].data + pend[1].data },
                ] + pend.skip(2));
            }
        } else {
            proof {
                // either the sum leaves `u64`, which no address equals, or
                // the addresses simply do not touch
                assert(!contiguous(pend[0], pend[1]));
                assert(spec_merge(pend) == seq![pend[0]] + spec_merge(pend.drop_first()));
            }
            let ghost out_before = segment_models(out@);
            out.push(current);
            current = next;
            proof {
                assert(segment_models(out@) =~= out_before + seq![pend[0]]);
                assert(seq![current@] + segment_models(rest@) =~= pend.drop_first());
            }
        }
    }
    proof {
        assert(segment_models(rest@) =~= Seq::<SegmentModel>::empty());
        assert(seq![current@] + segment_models(rest@) =~= seq![current@]);
        assert(spec_merge(seq![current@]) == seq![current@]);
    }
    let ghost out_before = segment_models(out@);
    let ghost curm = current@;
    out.push(current);
    proof {
        assert(segment_models(out@) =~= out_before + seq![curm]);
    }
    out
}

} // verus!
