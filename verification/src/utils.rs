//! The segmenter: splits raw text into overlapping chunks of a configured
//! target size, measured in characters.

use vstd::prelude::*;
use crate::errors::Error;
use crate::textutil::{chars_of, string_from_range};

verus! {

/// The spans produced by segmenting `s` with the given target size and
/// overlap: spans are taken left to right, each span but the last holds
/// exactly `target` characters, and consecutive spans share `overlap`
/// characters at the boundary.
pub open spec fn spec_segments(s: Seq<char>, target: int, overlap: int) -> Seq<Seq<char>>
    decreases s.len()
    when 0 <= overlap < target
{
    if s.len() == 0 {
        Seq::empty()
    } else if s.len() <= target {
        seq![s]
    } else {
        seq![s.take(target)] + spec_segments(s.skip(target - overlap), target, overlap)
    }
}

/// Splits `text` into overlapping chunks. Fails with `Error::Config` when
/// `chunk_size` is zero or `overlap` is not smaller than `chunk_size`
/// (splitting would not terminate); otherwise returns exactly the spans
/// that `spec_segments` describes.
pub fn chunk_text(text: &str, chunk_size: usize, overlap: usize) -> (r: Result<Vec<String>, Error>)
    ensures
        chunk_size == 0 || overlap >= chunk_size ==> r == Err::<Vec<String>, Error>(Error::Config),
        0 < chunk_size && overlap < chunk_size ==> (r matches Ok(chunks) && chunks.deep_view()
            == spec_segments(text@, chunk_size as int, overlap as int)),
{
    if chunk_size == 0 || overlap >= chunk_size {
        return Err(Error::Config);
    }
    let cs = chars_of(text);
    let step = chunk_size - overlap;
    let n = cs.len();
    let mut out: Vec<String> = Vec::new();
    if n == 0 {
        proof {
            assert(out.deep_view() =~= spec_segments(
                text@,
                chunk_size as int,
                overlap as int,
            ));
        }
        return Ok(out);
    }
    let mut start: usize = 0;
    proof {
        assert(out.deep_view() =~= Seq::<Seq<char>>::empty());
        assert(text@.skip(0) =~= text@);
        assert(Seq::<Seq<char>>::empty() + spec_segments(
            text@,
            chunk_size as int,
            overlap as int,
        ) =~= spec_segments(text@, chunk_size as int, overlap as int));
    }
    loop
        invariant
            0 < chunk_size,
            overlap < chunk_size,
            step == chunk_size - overlap,
            n == cs@.len(),
            cs@ == text@,
            start < n,
            spec_segments(text@, chunk_size as int, overlap as int) == out.deep_view()
                + spec_segments(text@.skip(start as int), chunk_size as int, overlap as int),
        decreases n - start,
    {
        let ghost suffix = text@.skip(start as int);
        let ghost pre = out.deep_view();
        if n - start <= chunk_size {
            let chunk = string_from_range(&cs, start, n);
            out.push(chunk);
            proof {
                assert(chunk@ =~= suffix);
                assert(spec_segments(suffix, chunk_size as int, overlap as int) =~= seq![suffix]);
                assert(out.deep_view() =~= pre + seq![suffix]);
            }
            return Ok(out);
        } else {
            let chunk = string_from_range(&cs, start, start + chunk_size);
            out.push(chunk);
            proof {
                assert(suffix.take(chunk_size as int) =~= cs@.subrange(
                    start as int,
                    start + chunk_size as int,
                ));
                assert(chunk@ == suffix.take(chunk_size as int));
                assert(suffix.skip(chunk_size - overlap) =~= text@.skip(start + step as int));
                assert(out.deep_view() =~= pre + seq![suffix.take(chunk_size as int)]);
                assert(pre + seq![suffix.take(chunk_size as int)] + spec_segments(
                    text@.skip(start + step as int),
                    chunk_size as int,
                    overlap as int,
                ) =~= pre + (seq![suffix.take(chunk_size as int)] + spec_segments(
                    text@.skip(start + step as int),
                    chunk_size as int,
                    overlap as int,
                )));
            }
            start = start + step;
        }
    }
}

/// Concatenation of all spans after the first, each with its overlapping
/// prefix of `overlap` characters removed.
pub open spec fn spec_tail_concat(segs: Seq<Seq<char>>, overlap: int) -> Seq<char>
    decreases segs.len(),
{
    if segs.len() == 0 {
        Seq::empty()
    } else {
        segs[0].skip(overlap) + spec_tail_concat(segs.drop_first(), overlap)
    }
}

/// The spans glued back together: the first span whole, every later span
/// with the shared `overlap` characters removed.
pub open spec fn spec_reassemble(segs: Seq<Seq<char>>, overlap: int) -> Seq<char> {
    if segs.len() == 0 {
        Seq::empty()
    } else {
        segs[0] + spec_tail_concat(segs.drop_first(), overlap)
    }
}

proof fn lemma_tail_concat_segments(s: Seq<char>, target: int, overlap: int)
    requires
        0 <= overlap < target,
        s.len() > overlap,
    ensures
        spec_tail_concat(spec_segments(s, target, overlap), overlap) == s.skip(overlap),
    decreases s.len(),
{
    let segs = spec_segments(s, target, overlap);
    if s.len() <= target {
        assert(segs =~= seq![s]);
        assert(segs.drop_first() =~= Seq::<Seq<char>>::empty());
        assert(spec_tail_concat(Seq::<Seq<char>>::empty(), overlap) == Seq::<char>::empty());
        assert(spec_tail_concat(segs, overlap) == segs[0].skip(overlap) + spec_tail_concat(
            segs.drop_first(),
            overlap,
        ));
        assert(s.skip(overlap) + Seq::<char>::empty() =~= s.skip(overlap));
    } else {
        let step = target - overlap;
        let rest = spec_segments(s.skip(step), target, overlap);
        assert(segs == seq![s.take(target)] + rest);
        assert(segs[0] == s.take(target));
        assert(segs.drop_first() =~= rest);
        assert(s.skip(step).len() > overlap);
        lemma_tail_concat_segments(s.skip(step), target, overlap);
        assert(s.skip(step).skip(overlap) =~= s.skip(target));
        assert(s.take(target).skip(overlap) =~= s.subrange(overlap, target));
        assert(s.subrange(overlap, target) + s.skip(target) =~= s.skip(overlap));
    }
}

/// Coverage law: whenever `0 < overlap < target`, concatenating the spans
/// of a text with the overlapping region removed from every span after the
/// first reconstructs the text exactly.
pub proof fn lemma_segment_coverage(s: Seq<char>, target: int, overlap: int)
    requires
        0 < overlap < target,
    ensures
        spec_reassemble(spec_segments(s, target, overlap), overlap) == s,
{
    let segs = spec_segments(s, target, overlap);
    if s.len() == 0 {
        assert(spec_reassemble(segs, overlap) =~= s);
    } else if s.len() <= target {
        assert(segs =~= seq![s]);
        assert(segs.drop_first() =~= Seq::<Seq<char>>::empty());
        assert(s + Seq::<char>::empty() =~= s);
    } else {
        let step = target - overlap;
        let rest = spec_segments(s.skip(step), target, overlap);
        assert(segs == seq![s.take(target)] + rest);
        assert(segs[0] == s.take(target));
        assert(segs.drop_first() =~= rest);
        assert(s.skip(step).len() > overlap);
        lemma_tail_concat_segments(s.skip(step), target, overlap);
        assert(s.skip(step).skip(overlap) =~= s.skip(target));
        assert(s.take(target) + s.skip(target) =~= s);
    }
}

/// Sizing law: for a nonempty text, every span except the last holds
/// exactly `target` characters, the last span is nonempty and holds at
/// most `target`, and each pair of consecutive spans shares exactly
/// `overlap` characters at the boundary.
pub proof fn lemma_segment_sizes(s: Seq<char>, target: int, overlap: int)
    requires
        0 <= overlap < target,
        s.len() > 0,
    ensures
        ({
            let segs = spec_segments(s, target, overlap);
            &&& segs.len() > 0
            &&& forall|k: int|
                0 <= k < segs.len() - 1 ==> (#[trigger] segs[k]).len() == target
            &&& 0 < segs.last().len() <= target
            &&& forall|k: int|
                0 <= k < segs.len() - 1 ==> (#[trigger] segs[k]).skip(target - overlap) == segs[k
                    + 1].take(overlap)
        }),
    decreases s.len(),
{
    let segs = spec_segments(s, target, overlap);
    if s.len() <= target {
        assert(segs =~= seq![s]);
    } else {
        let step = target - overlap;
        let suffix = s.skip(step);
        let rest = spec_segments(suffix, target, overlap);
        assert(segs == seq![s.take(target)] + rest);
        assert(suffix.len() == s.len() - step);
        assert(suffix.len() > overlap);
        lemma_segment_sizes(suffix, target, overlap);
        assert(rest.len() > 0);
        assert(segs.len() == rest.len() + 1);
        assert(segs[0] == s.take(target));
        assert(segs[0].len() == target);
        assert forall|k: int| 1 <= k < segs.len() implies segs[k] == rest[k - 1] by {}
        assert(segs.last() == rest.last());
        // the boundary between the first and the second span
        let first_of_rest = rest[0];
        if suffix.len() <= target {
            assert(first_of_rest == suffix);
        } else {
            assert(first_of_rest == suffix.take(target));
        }
        assert(first_of_rest.take(overlap) =~= suffix.take(overlap));
        assert(segs[0].skip(step) =~= s.subrange(step, target));
        assert(suffix.take(overlap) =~= s.subrange(step, target));
        assert(segs[0].skip(target - overlap) == segs[1].take(overlap));
        assert forall|k: int|
            0 <= k < segs.len() - 1 implies (#[trigger] segs[k]).skip(target - overlap) == segs[k
            + 1].take(overlap) by {
            if k >= 1 {
                assert(segs[k] == rest[k - 1]);
                assert(segs[k + 1] == rest[k]);
                assert(rest[k - 1].skip(target - overlap) == rest[k].take(overlap));
            }
        }
        assert forall|k: int| 0 <= k < segs.len() - 1 implies (#[trigger] segs[k]).len()
            == target by {
            if k >= 1 {
                assert(segs[k] == rest[k - 1]);
            }
        }
    }
}

} // verus!
