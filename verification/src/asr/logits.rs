//! The recogniser's output: one row of class scores per frame.
use vstd::prelude::*;

verus! {

/// The number of leading frames that carry the control tokens (language,
/// emotion, event, text normalisation) and hold no speech.
pub const CONTROL_FRAMES: usize = 4;

/// Class scores by frame. A score is the bit pattern of a single-precision
/// number (see [`crate::single`]).
pub struct Logits {
    pub rows: Vec<Vec<u32>>,
    pub classes: usize,
}

impl Logits {
    /// Every frame scores every class.
    pub open spec fn wf(self) -> bool {
        forall|i: int|
            0 <= i < self.rows@.len() ==> (#[trigger] self.rows@[i])@.len() == self.classes
    }

    /// The frames, each as the sequence of its scores.
    pub open spec fn frames(self) -> Seq<Seq<u32>> {
        self.rows@.map_values(|row: Vec<u32>| row@)
    }
}

/// Why the model's output could not be read.
#[derive(Debug, Clone, Copy, PartialEq, Eq)]
pub enum OutputError {
    /// The output has neither two nor three dimensions.
    UnexpectedDimensions(usize),
}

/// The number of elements of an array of the given shape.
pub open spec fn element_count(shape: Seq<usize>) -> nat
    decreases shape.len(),
{
    if shape.len() == 0 {
        1
    } else {
        element_count(shape.drop_last()) * shape.last() as nat
    }
}

/// The reported lengths as a sequence.
pub open spec fn lens_view(lens: Option<Vec<i32>>) -> Option<Seq<i32>> {
    match lens {
        Some(l) => Some(l@),
        None => None,
    }
}

/// The first item of a two- or three-dimensional output lies within it.
proof fn lemma_output_size(shape: Seq<usize>)
    requires
        2 <= shape.len() <= 3,
        shape.len() == 3 ==> shape[0] > 0,
    ensures
        frame_count(shape) * class_count(shape) <= element_count(shape),
{
    reveal_with_fuel(element_count, 4);
    let a = shape[0] as int;
    let b = shape[1] as int;
    if shape.len() == 2 {
        assert(element_count(shape.drop_last()) == 1 * a);
        assert(element_count(shape) == a * b);
    } else {
        let c = shape[2] as int;
        assert(element_count(shape.drop_last().drop_last()) == 1 * a);
        assert(element_count(shape.drop_last()) == a * b);
        assert(element_count(shape) == (a * b) * c);
        assert(b * c <= (a * b) * c) by (nonlinear_arith)
            requires
                a >= 1,
                b >= 0,
                c >= 0,
        ;
    }
}

/// The number of leading frames that the model vouches for: the first reported
/// length, or the second dimension where none is reported, and at least one.
pub open spec fn valid_frames(shape: Seq<usize>, lens: Option<Seq<i32>>) -> int {
    let reported = match lens {
        Some(l) => if l.len() > 0 {
            l[0]
        } else {
            shape[1] as i32
        },
        None => shape[1] as i32,
    };
    if reported < 1 {
        1
    } else {
        reported as int
    }
}

/// The number of frames of the first (or only) item of the output.
pub open spec fn frame_count(shape: Seq<usize>) -> int {
    if shape.len() == 2 {
        shape[0] as int
    } else {
        shape[1] as int
    }
}

/// The number of classes scored in each frame.
pub open spec fn class_count(shape: Seq<usize>) -> int {
    shape.last() as int
}

/// The first and one past the last frame that are decoded: the vouched-for
/// frames, without the control frames where any speech frame follows them.
pub open spec fn decoded_range(shape: Seq<usize>, lens: Option<Seq<i32>>) -> (int, int) {
    let total = frame_count(shape);
    let valid = valid_frames(shape, lens);
    let end = if valid < total {
        valid
    } else {
        total
    };
    if end > CONTROL_FRAMES {
        (CONTROL_FRAMES as int, end)
    } else {
        (0int, end)
    }
}

/// The scores of frame `i`, from the output's elements in row-major order.
pub open spec fn output_frame(data: Seq<u32>, classes: int, i: int) -> Seq<u32> {
    data.subrange(i * classes, i * classes + classes)
}

/// The frames of the model's output that are to be decoded, and the frame
/// lengths that go with it.
///
/// `shape` and `data` are the output array in row-major order, of which a
/// three-dimensional one holds one item per batch entry and the first is read;
/// `lens` is the model's second output, where it has one.
pub fn select_frames(shape: &Vec<usize>, data: &Vec<u32>, lens: Option<Vec<i32>>) -> (r: Result<
    (Logits, Vec<i32>),
    OutputError,
>)
    requires
        shape@.len() >= 2,
        data@.len() == element_count(shape@),
        shape@.len() == 3 ==> shape@[0] > 0,
    ensures
        match r {
            Ok((logits, out_lens)) => {
                let range = decoded_range(shape@, lens_view(lens));
                &&& shape@.len() <= 3
                &&& logits.wf()
                &&& logits.classes == class_count(shape@)
                &&& logits.frames() == Seq::new(
                    (range.1 - range.0) as nat,
                    |i: int| output_frame(data@, class_count(shape@), range.0 + i),
                )
                &&& out_lens@ == (match lens {
                    Some(l) => l@,
                    None => seq![shape@[1] as i32],
                })
            },
            Err(OutputError::UnexpectedDimensions(n)) => n == shape@.len() && n > 3,
        },
{
    let ndim = shape.len();
    let second: i32 = #[verifier::truncate]
    (shape[1] as i32);
    let ghost reported_lens = lens_view(lens);
    let out_lens: Vec<i32> = match lens {
        Some(l) => l,
        None => vec![second],
    };
    let reported: i32 = if out_lens.len() > 0 {
        out_lens[0]
    } else {
        second
    };
    let valid: usize = if reported < 1 {
        1
    } else {
        reported as usize
    };
    if ndim > 3 {
        return Err(OutputError::UnexpectedDimensions(ndim));
    }
    let total: usize = if ndim == 2 {
        shape[0]
    } else {
        shape[1]
    };
    let classes: usize = shape[ndim - 1];
    let end: usize = if valid < total {
        valid
    } else {
        total
    };
    let start: usize = if end > CONTROL_FRAMES {
        CONTROL_FRAMES
    } else {
        0
    };
    proof {
        lemma_output_size(shape@);
    }
    let available: usize = data.len();
    let mut rows: Vec<Vec<u32>> = Vec::new();
    let mut i: usize = start;
    while i < end
        invariant
            start <= i <= end <= total,
            total * classes <= available == data@.len(),
            rows@.len() == i - start,
            forall|k: int|
                0 <= k < rows@.len() ==> (#[trigger] rows@[k])@ == output_frame(
                    data@,
                    classes as int,
                    start + k,
                ),
        decreases end - i,
    {
        assert(i * classes + classes <= total * classes) by (nonlinear_arith)
            requires
                i + 1 <= total,
                0 <= classes,
        ;
        assert(0 <= i * classes) by (nonlinear_arith);
        let base: usize = i * classes;
        let mut row: Vec<u32> = Vec::new();
        let mut j: usize = 0;
        while j < classes
            invariant
                j <= classes,
                base == i * classes,
                base + classes <= available == data@.len(),
                row@ == data@.subrange(base as int, base + j),
            decreases classes - j,
        {
            row.push(data[base + j]);
            j = j + 1;
            assert(data@.subrange(base as int, base + j) =~= data@.subrange(
                base as int,
                base + j - 1,
            ).push(data@[base + j - 1]));
        }
        rows.push(row);
        i = i + 1;
    }
    let logits = Logits { rows, classes };
    proof {
        assert forall|k: int| 0 <= k < logits.rows@.len() implies (
        #[trigger] logits.rows@[k])@.len() == logits.classes by {
            let at = start + k;
            assert(at * classes + classes <= total * classes) by (nonlinear_arith)
                requires
                    at + 1 <= total,
                    0 <= classes,
            ;
            assert(0 <= at * classes) by (nonlinear_arith)
                requires
                    0 <= at,
                    0 <= classes,
            ;
        }
        assert(decoded_range(shape@, reported_lens) == (start as int, end as int));
    }
    Ok((logits, out_lens))
}

// ── Laws ─────────────────────────────────────────────────────────────────────

/// The frames of a recogniser's output are its rows.
pub proof fn law_frames_are_the_rows(logits: Logits)
    ensures
        logits.frames().len() == logits.rows@.len(),
        forall|i: int|
            0 <= i < logits.rows@.len() ==> #[trigger] logits.frames()[i] == logits.rows@[i]@,
        logits.wf() ==> forall|i: int|
            0 <= i < logits.rows@.len() ==> (#[trigger] logits.rows@[i])@.len() == logits.classes,
{
}

/// An array has as many elements as its dimensions multiplied.
pub proof fn law_elements_are_the_product(a: usize, b: usize, c: usize)
    ensures
        element_count(seq![a, b]) == a * b,
        element_count(seq![a, b, c]) == a * b * c,
{
    reveal_with_fuel(element_count, 4);
    assert(seq![a, b].drop_last() =~= seq![a]);
    assert(seq![a].drop_last() =~= seq![]);
    assert(seq![a, b, c].drop_last() =~= seq![a, b]);
    assert(1 * a == a);
}

/// A two-dimensional output is frames by classes; of a three-dimensional one the
/// first dimension is the batch.
pub proof fn law_output_dimensions(a: usize, b: usize, c: usize)
    ensures
        frame_count(seq![a, b]) == a,
        class_count(seq![a, b]) == b,
        frame_count(seq![a, b, c]) == b,
        class_count(seq![a, b, c]) == c,
{
}

/// The frames that are decoded: of `v` valid frames, where `v` is the first
/// reported length, or the second dimension where none is reported, but at least
/// one and at most all frames, those from the fifth to the last, or all of them
/// where there are no more than four. (A dimension beyond `i32::MAX` has no room
/// in a length.)
pub proof fn law_no_valid_frame_is_left_out(shape: Seq<usize>, lens: Option<Seq<i32>>)
    requires
        2 <= shape.len() <= 3,
        shape[1] <= i32::MAX,
    ensures
        ({
            let reported: int = if lens is Some && lens->0.len() > 0 {
                lens->0[0] as int
            } else {
                shape[1] as int
            };
            let total: int = shape[shape.len() - 2] as int;
            let (first, end) = decoded_range(shape, lens);
            &&& 1 <= reported <= total ==> end == reported
            &&& reported < 1 && total >= 1 ==> end == 1
            &&& reported > total || total == 0 ==> end == total
            &&& end > 4 ==> first == 4
            &&& end <= 4 ==> first == 0
        }),
{
}

/// Class `j` of frame `i` is the element `j` places after those of the `i` frames
/// before it.
pub proof fn law_frames_are_laid_out_in_rows(data: Seq<u32>, classes: int, i: int)
    requires
        0 <= i,
        0 <= classes,
        i * classes + classes <= data.len(),
    ensures
        output_frame(data, classes, i).len() == classes,
        forall|j: int|
            0 <= j < classes ==> #[trigger] output_frame(data, classes, i)[j] == data[i * classes
                + j],
{
    assert(0 <= i * classes) by (nonlinear_arith)
        requires
            0 <= i,
            0 <= classes,
    ;
}

/// The reported lengths are the ones given.
pub proof fn law_lengths_are_the_reported_ones(lens: Vec<i32>)
    ensures
        lens_view(Some(lens)) == Some(lens@),
        lens_view(None) is None,
{
}

}
