//! The chunked media-upload protocol: after a caller has declared the total
//! byte size and MIME type of an attachment and received an opaque media id,
//! the remaining steps are fully determined by the total size and the optional
//! alternative text. `upload_plan` computes that schedule: one append per
//! fixed-size segment (the last segment may be shorter), indices zero-based,
//! strictly increasing and contiguous; then a finalize; then, when a non-empty
//! alternative text is present, one metadata step that attaches it.

use vstd::prelude::*;

verus! {

/// Bytes uploaded per append segment; only the last segment of an upload may
/// carry fewer.
pub const SEGMENT_BYTES: u64 = 1000000;

/// One step of the upload protocol after initialization.
pub enum UploadStep {
    Append { segment_index: u64, size: u64 },
    Finalize,
    SetAltText { text: String },
}

pub ghost enum UploadStepView {
    Append { segment_index: int, size: int },
    Finalize,
    SetAltText { text: Seq<char> },
}

impl View for UploadStep {
    type V = UploadStepView;

    open spec fn view(&self) -> UploadStepView {
        match self {
            UploadStep::Append { segment_index, size } => (UploadStepView::Append {
                segment_index: *segment_index as int,
                size: *size as int,
            }),
            UploadStep::Finalize => UploadStepView::Finalize,
            UploadStep::SetAltText { text } => (UploadStepView::SetAltText { text: text@ }),
        }
    }
}

impl DeepView for UploadStep {
    type V = UploadStepView;

    open spec fn deep_view(&self) -> UploadStepView {
        self@
    }
}

pub open spec fn append_index(s: UploadStepView) -> int {
    match s {
        UploadStepView::Append { segment_index, .. } => segment_index,
        _ => -1,
    }
}

pub open spec fn append_size(s: UploadStepView) -> int {
    match s {
        UploadStepView::Append { size, .. } => size,
        _ => 0,
    }
}

/// The append steps that upload `total` bytes, the first tagged `index`.
pub open spec fn spec_append_steps(total: int, index: int) -> Seq<UploadStepView>
    decreases total,
{
    if total <= 0 {
        Seq::empty()
    } else if total <= SEGMENT_BYTES as int {
        seq![UploadStepView::Append { segment_index: index, size: total }]
    } else {
        seq![UploadStepView::Append { segment_index: index, size: SEGMENT_BYTES as int }]
            + spec_append_steps(total - SEGMENT_BYTES as int, index + 1)
    }
}

/// The metadata step, owed exactly when a non-empty alternative text exists.
pub open spec fn spec_alt_text_steps(alt: Option<Seq<char>>) -> Seq<UploadStepView> {
    match alt {
        Some(t) => if t.len() > 0 {
            seq![UploadStepView::SetAltText { text: t }]
        } else {
            Seq::empty()
        },
        None => Seq::empty(),
    }
}

/// The whole schedule after initialization: appends, finalize, metadata.
pub open spec fn spec_upload_plan(total: int, alt: Option<Seq<char>>) -> Seq<UploadStepView> {
    spec_append_steps(total, 0) + seq![UploadStepView::Finalize] + spec_alt_text_steps(alt)
}

/// Compute the upload schedule for an attachment of `total_bytes` bytes with
/// the given optional alternative text.
pub fn upload_plan(total_bytes: u64, alt_text: &Option<String>) -> (r: Vec<UploadStep>)
    ensures
        r.deep_view() == spec_upload_plan(total_bytes as int, alt_text.deep_view()),
{
    let mut steps: Vec<UploadStep> = Vec::new();
    let mut remaining: u64 = total_bytes;
    let mut index: u64 = 0;
    while remaining > 0
        invariant
            index as int <= total_bytes as int - remaining as int,
            steps.deep_view() + spec_append_steps(remaining as int, index as int)
                == spec_append_steps(total_bytes as int, 0),
        decreases remaining,
    {
        let size = if remaining > SEGMENT_BYTES {
            SEGMENT_BYTES
        } else {
            remaining
        };
        let ghost pre = steps.deep_view();
        let step = UploadStep::Append { segment_index: index, size };
        proof {
            assert(spec_append_steps(remaining as int, index as int)
                =~= seq![step@] + spec_append_steps(remaining as int - size as int,
                    index as int + 1));
        }
        steps.push(step);
        proof {
            assert(steps.deep_view() =~= pre.push(step@));
            assert(pre.push(step@) + spec_append_steps(remaining as int - size as int,
                index as int + 1) =~= pre + spec_append_steps(remaining as int, index as int));
        }
        remaining = remaining - size;
        index = index + 1;
    }
    proof {
        assert(steps.deep_view() + spec_append_steps(0, index as int)
            =~= steps.deep_view());
    }
    let ghost appends = steps.deep_view();
    steps.push(UploadStep::Finalize);
    proof {
        assert(steps.deep_view() =~= appends.push(UploadStepView::Finalize));
    }
    let ghost with_finalize = steps.deep_view();
    match alt_text {
        Some(text) => {
            if !text.as_str().is_empty() {
                steps.push(UploadStep::SetAltText { text: text.clone() });
                proof {
                    assert(steps.deep_view() =~= with_finalize.push(
                        UploadStepView::SetAltText { text: text@ }));
                }
            }
        },
        None => {},
    }
    proof {
        assert(steps.deep_view() =~= spec_upload_plan(total_bytes as int, alt_text.deep_view()));
    }
    steps
}

/// Every append step is tagged with a contiguous, zero-based, strictly
/// increasing segment index; every segment is between one byte and the fixed
/// segment size; only the last segment may be short.
pub proof fn lemma_append_steps_shape(total: int, index: int, j: int)
    requires
        0 <= j < spec_append_steps(total, index).len(),
    ensures
        spec_append_steps(total, index)[j] is Append,
        append_index(spec_append_steps(total, index)[j]) == index + j,
        1 <= append_size(spec_append_steps(total, index)[j]) <= SEGMENT_BYTES as int,
        j < spec_append_steps(total, index).len() - 1 ==> append_size(
            spec_append_steps(total, index)[j]) == SEGMENT_BYTES as int,
    decreases total,
{
    if total <= SEGMENT_BYTES as int {
    } else {
        if j > 0 {
            lemma_append_steps_shape(total - SEGMENT_BYTES as int, index + 1, j - 1);
        }
    }
}

/// The number of append steps is the least number of segments that covers the
/// total: the loop stops exactly when `count * SEGMENT_BYTES` reaches it.
pub proof fn lemma_append_steps_len(total: int, index: int)
    requires
        total >= 0,
    ensures
        total == 0 ==> spec_append_steps(total, index).len() == 0,
        total > 0 ==> ({
            let n = spec_append_steps(total, index).len() as int;
            &&& n >= 1
            &&& (n - 1) * SEGMENT_BYTES < total
            &&& total <= n * SEGMENT_BYTES
        }),
    decreases total,
{
    let s = SEGMENT_BYTES as int;
    if total == 0 {
    } else if total <= s {
        assert((1 - 1) * s < total && total <= 1 * s) by (nonlinear_arith)
            requires 0 < total <= s;
    } else {
        lemma_append_steps_len(total - s, index + 1);
        let n = spec_append_steps(total - s, index + 1).len() as int;
        assert(spec_append_steps(total, index).len() as int == n + 1);
        assert((n + 1 - 1) * s < total && total <= (n + 1) * s) by (nonlinear_arith)
            requires (n - 1) * s < total - s, total - s <= n * s;
    }
}

/// The sum of the sizes of a sequence of append steps.
pub open spec fn sum_append_sizes(steps: Seq<UploadStepView>) -> int
    decreases steps.len(),
{
    if steps.len() == 0 {
        0
    } else {
        sum_append_sizes(steps.drop_last()) + append_size(steps.last())
    }
}

proof fn lemma_sum_append_sizes_concat(a: Seq<UploadStepView>, b: Seq<UploadStepView>)
    ensures
        sum_append_sizes(a + b) == sum_append_sizes(a) + sum_append_sizes(b),
    decreases b.len(),
{
    if b.len() == 0 {
        assert(a + b =~= a);
    } else {
        lemma_sum_append_sizes_concat(a, b.drop_last());
        assert((a + b).drop_last() =~= a + b.drop_last());
        assert((a + b).last() == b.last());
    }
}

/// The append steps carry the whole attachment: their sizes sum to the total.
pub proof fn lemma_append_steps_cover(total: int, index: int)
    requires
        total >= 0,
    ensures
        sum_append_sizes(spec_append_steps(total, index)) == total,
    decreases total,
{
    let s = SEGMENT_BYTES as int;
    if total == 0 {
    } else if total <= s {
        let steps = spec_append_steps(total, index);
        assert(steps.drop_last() =~= Seq::empty());
        assert(sum_append_sizes(Seq::<UploadStepView>::empty()) == 0);
        assert(sum_append_sizes(steps) == total);
    } else {
        lemma_append_steps_cover(total - s, index + 1);
        let head = seq![UploadStepView::Append { segment_index: index, size: s }];
        let rest = spec_append_steps(total - s, index + 1);
        lemma_sum_append_sizes_concat(head, rest);
        assert(spec_append_steps(total, index) == head + rest);
        assert(head.drop_last() =~= Seq::empty());
        assert(sum_append_sizes(Seq::<UploadStepView>::empty()) == 0);
        assert(sum_append_sizes(head) == s);
    }
}

} // verus!
