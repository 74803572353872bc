use vstd::prelude::*;

verus! {

/// One transport segment of a message.
#[derive(Clone, Debug)]
pub struct SplitterPart {
    /// The text carried by this part; empty when only a summary is asked for.
    pub content: String,
    /// Logical units in this part: characters in GSM mode, UTF-16 code units
    /// in Unicode mode.
    pub length: usize,
    /// Bytes this part costs on the air.
    pub bytes: usize,
}

/// What a part holds, as mathematical values.
pub struct PartView {
    pub content: Seq<char>,
    pub length: nat,
    pub bytes: nat,
}

impl View for SplitterPart {
    type V = PartView;

    open spec fn view(&self) -> PartView {
        PartView { content: self.content@, length: self.length as nat, bytes: self.bytes as nat }
    }
}

impl SplitterPart {
    pub fn new(content: String, length: usize, bytes: usize) -> (r: Self)
        ensures
            r@ == (PartView { content: content@, length: length as nat, bytes: bytes as nat }),
    {
        SplitterPart { content, length, bytes }
    }
}

/// The parts of a message, with its totals.
#[derive(Clone, Debug)]
pub struct SplitterResult {
    pub parts: Vec<SplitterPart>,
    pub total_length: usize,
    pub total_bytes: usize,
}

/// What a result holds, as mathematical values.
pub struct ResultView {
    pub parts: Seq<PartView>,
    pub total_length: nat,
    pub total_bytes: nat,
}

pub open spec fn part_views(parts: Seq<SplitterPart>) -> Seq<PartView> {
    parts.map_values(|p: SplitterPart| p@)
}

impl View for SplitterResult {
    type V = ResultView;

    open spec fn view(&self) -> ResultView {
        ResultView {
            parts: part_views(self.parts@),
            total_length: self.total_length as nat,
            total_bytes: self.total_bytes as nat,
        }
    }
}

/// The result for an empty message: one empty part and zero totals.
pub open spec fn empty_result() -> ResultView {
    ResultView {
        parts: seq![PartView { content: Seq::empty(), length: 0, bytes: 0 }],
        total_length: 0,
        total_bytes: 0,
    }
}

impl SplitterResult {
    pub fn empty() -> (r: Self)
        ensures
            r@ == empty_result(),
    {
        let parts = vec![SplitterPart::new(String::new(), 0, 0)];
        let r = SplitterResult { parts, total_length: 0, total_bytes: 0 };
        assert(r@.parts =~= empty_result().parts);
        r
    }
}

/// Sum of the lengths of `parts`.
pub open spec fn sum_length(parts: Seq<PartView>) -> nat
    decreases parts.len(),
{
    if parts.len() == 0 {
        0
    } else {
        sum_length(parts.drop_last()) + parts.last().length
    }
}

/// Sum of the byte counts of `parts`.
pub open spec fn sum_bytes(parts: Seq<PartView>) -> nat
    decreases parts.len(),
{
    if parts.len() == 0 {
        0
    } else {
        sum_bytes(parts.drop_last()) + parts.last().bytes
    }
}

/// The texts of `parts`, one after the other.
pub open spec fn joined(parts: Seq<PartView>) -> Seq<char>
    decreases parts.len(),
{
    if parts.len() == 0 {
        Seq::empty()
    } else {
        joined(parts.drop_last()) + parts.last().content
    }
}

/// Every part stays within `multi` bytes, but for the sole part of a
/// one-part result, which may take up to `single`.
pub open spec fn within_budget(parts: Seq<PartView>, single: nat, multi: nat) -> bool {
    forall|i: int|
        0 <= i < parts.len() ==> #[trigger] parts[i].bytes <= multi || (parts.len() == 1
            && parts[i].bytes <= single)
}

} // verus!
