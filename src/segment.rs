//! The bookkeeping shared by both segmenters: a running part, the parts
//! banked so far, and the final step that may merge two parts back into one.
use vstd::prelude::*;

use crate::splitter_result::{
    empty_result, joined, part_views, sum_bytes, sum_length, within_budget, PartView, ResultView, SplitterPart,
    SplitterResult,
};
use crate::text::push_char;

verus! {

/// The state of a scan: the parts banked so far and the part being filled.
pub struct ScanView {
    pub parts: Seq<PartView>,
    pub text: Seq<char>,
    pub length: nat,
    pub bytes: nat,
    pub total_length: nat,
    pub total_bytes: nat,
}

pub open spec fn scan_start() -> ScanView {
    ScanView {
        parts: Seq::empty(),
        text: Seq::empty(),
        length: 0,
        bytes: 0,
        total_length: 0,
        total_bytes: 0,
    }
}

/// Closes the running part, adds it to the parts, and folds its counts into
/// the totals.
pub open spec fn bank(s: ScanView) -> ScanView {
    ScanView {
        parts: s.parts.push(PartView { content: s.text, length: s.length, bytes: s.bytes }),
        text: Seq::empty(),
        length: 0,
        bytes: 0,
        total_length: s.total_length + s.length,
        total_bytes: s.total_bytes + s.bytes,
    }
}

/// Adds `c` to the running part, at a cost of `units` length and `cost` bytes;
/// under `summary` the text is not kept.
pub open spec fn take_char(s: ScanView, c: char, units: nat, cost: nat, summary: bool) -> ScanView {
    ScanView {
        text: if summary {
            s.text
        } else {
            s.text.push(c)
        },
        length: s.length + units,
        bytes: s.bytes + cost,
        ..s
    }
}

/// The scan with what is left of the running part banked.
pub open spec fn banked(s: ScanView) -> ScanView {
    if s.bytes > 0 {
        bank(s)
    } else {
        s
    }
}

/// Banks what is left, then merges a result of several parts into one when its
/// total still fits in `single` bytes.
pub open spec fn finish(s: ScanView, single: nat) -> ResultView {
    let t = banked(s);
    if t.parts.len() > 1 && t.total_bytes <= single {
        ResultView {
            parts: seq![
                PartView {
                    content: t.parts[0].content + t.parts[1].content,
                    length: t.total_length,
                    bytes: t.total_bytes,
                },
            ],
            total_length: t.total_length,
            total_bytes: t.total_bytes,
        }
    } else {
        ResultView { parts: t.parts, total_length: t.total_length, total_bytes: t.total_bytes }
    }
}

/// What holds of a scan between two characters: the running part is below
/// `multi` bytes, each banked part holds between `floor` and `multi` bytes, the
/// totals are the sums of the parts, and each length is `measure` of its text
/// (or every text is empty, under `summary`).
pub open spec fn scan_ok(
    s: ScanView,
    multi: nat,
    floor: nat,
    summary: bool,
    measure: spec_fn(Seq<char>) -> nat,
) -> bool {
    &&& s.bytes < multi
    &&& s.bytes == 0 ==> s.text.len() == 0 && s.length == 0
    &&& s.total_bytes == sum_bytes(s.parts)
    &&& s.total_length == sum_length(s.parts)
    &&& forall|i: int| 0 <= i < s.parts.len() ==> floor <= #[trigger] s.parts[i].bytes <= multi
    &&& summary ==> s.text.len() == 0 && forall|i: int|
        0 <= i < s.parts.len() ==> (#[trigger] s.parts[i]).content.len() == 0
    &&& !summary ==> s.length == measure(s.text) && forall|i: int|
        0 <= i < s.parts.len() ==> (#[trigger] s.parts[i]).length == measure(s.parts[i].content)
}

/// A measure of text that adds up over concatenation.
pub open spec fn additive(measure: spec_fn(Seq<char>) -> nat) -> bool {
    forall|a: Seq<char>, b: Seq<char>| #[trigger] measure(a + b) == measure(a) + measure(b)
}

proof fn lemma_push_sums(parts: Seq<PartView>, p: PartView)
    ensures
        sum_bytes(parts.push(p)) == sum_bytes(parts) + p.bytes,
        sum_length(parts.push(p)) == sum_length(parts) + p.length,
        joined(parts.push(p)) == joined(parts) + p.content,
{
    assert(parts.push(p).drop_last() =~= parts);
}

proof fn lemma_single(p: PartView)
    ensures
        sum_bytes(seq![p]) == p.bytes,
        sum_length(seq![p]) == p.length,
        joined(seq![p]) == p.content,
{
    assert(seq![p].drop_last() =~= Seq::<PartView>::empty());
    assert(sum_bytes(Seq::<PartView>::empty()) == 0);
    assert(sum_length(Seq::<PartView>::empty()) == 0);
    assert(joined(Seq::<PartView>::empty()) + p.content =~= p.content);
}

/// The result for an empty message keeps the laws of every other result.
pub proof fn lemma_empty_result()
    ensures
        ({
            let r = empty_result();
            &&& r.total_bytes == sum_bytes(r.parts)
            &&& r.total_length == sum_length(r.parts)
            &&& joined(r.parts) == Seq::<char>::empty()
        }),
{
    lemma_single(empty_result().parts[0]);
    assert(empty_result().parts =~= seq![empty_result().parts[0]]);
}

/// Merging back keeps the totals: they are the sums over the parts before the
/// merge, and the sums over the parts after it.
pub proof fn lemma_merge_keeps_totals(s: ScanView, single: nat)
    requires
        s.total_bytes == sum_bytes(s.parts),
        s.total_length == sum_length(s.parts),
        s.bytes == 0 ==> s.length == 0,
    ensures
        ({
            let t = banked(s);
            let r = finish(s, single);
            &&& r.total_bytes == sum_bytes(t.parts)
            &&& r.total_length == sum_length(t.parts)
            &&& r.total_bytes == sum_bytes(r.parts)
            &&& r.total_length == sum_length(r.parts)
        }),
{
    let t = banked(s);
    let r = finish(s, single);
    if s.bytes > 0 {
        lemma_push_sums(s.parts, PartView { content: s.text, length: s.length, bytes: s.bytes });
    }
    if t.parts.len() > 1 && t.total_bytes <= single {
        assert(r.parts =~= seq![r.parts[0]]);
        lemma_single(r.parts[0]);
    }
}

proof fn lemma_sum_bytes_floor(parts: Seq<PartView>, floor: nat)
    requires
        forall|i: int| 0 <= i < parts.len() ==> floor <= #[trigger] parts[i].bytes,
    ensures
        sum_bytes(parts) >= floor * parts.len(),
    decreases parts.len(),
{
    if parts.len() > 0 {
        let rest = parts.drop_last();
        assert forall|i: int| 0 <= i < rest.len() implies floor <= #[trigger] rest[i].bytes by {
            assert(rest[i] == parts[i]);
        }
        lemma_sum_bytes_floor(rest, floor);
        assert(floor * parts.len() == floor * rest.len() + floor) by (nonlinear_arith)
            requires
                parts.len() == rest.len() + 1,
        ;
    }
}

/// Banking keeps a scan in order, given a running part within budget.
pub proof fn lemma_bank_ok(
    s: ScanView,
    multi: nat,
    floor: nat,
    summary: bool,
    measure: spec_fn(Seq<char>) -> nat,
)
    requires
        s.total_bytes == sum_bytes(s.parts),
        s.total_length == sum_length(s.parts),
        forall|i: int| 0 <= i < s.parts.len() ==> floor <= #[trigger] s.parts[i].bytes <= multi,
        summary ==> s.text.len() == 0 && forall|i: int|
            0 <= i < s.parts.len() ==> (#[trigger] s.parts[i]).content.len() == 0,
        !summary ==> s.length == measure(s.text) && forall|i: int|
            0 <= i < s.parts.len() ==> (#[trigger] s.parts[i]).length == measure(
                s.parts[i].content,
            ),
        floor <= s.bytes <= multi,
        multi > 0,
        measure(Seq::empty()) == 0,
    ensures
        scan_ok(bank(s), multi, floor, summary, measure),
        joined(bank(s).parts) + bank(s).text == joined(s.parts) + s.text,
        bank(s).parts.len() == s.parts.len() + 1,
{
    let p = PartView { content: s.text, length: s.length, bytes: s.bytes };
    lemma_push_sums(s.parts, p);
    let t = bank(s);
    assert forall|i: int| 0 <= i < t.parts.len() implies floor <= #[trigger] t.parts[i].bytes
        <= multi by {
        if i < s.parts.len() {
            assert(t.parts[i] == s.parts[i]);
        }
    }
    if summary {
        assert forall|i: int| 0 <= i < t.parts.len() implies (
        #[trigger] t.parts[i]).content.len() == 0 by {
            if i < s.parts.len() {
                assert(t.parts[i] == s.parts[i]);
            }
        }
    } else {
        assert forall|i: int| 0 <= i < t.parts.len() implies (#[trigger] t.parts[i]).length
            == measure(t.parts[i].content) by {
            if i < s.parts.len() {
                assert(t.parts[i] == s.parts[i]);
            }
        }
    }
    assert(joined(t.parts) + t.text =~= joined(t.parts));
}

/// What the final step gives of any well-kept scan: the totals are the sums of
/// the parts, every part keeps to its budget, a total within `single` bytes
/// comes out as exactly one part and a larger one as several, the texts of the
/// parts put together are the text scanned, and each length measures its text.
pub proof fn lemma_finish(
    s: ScanView,
    single: nat,
    multi: nat,
    floor: nat,
    summary: bool,
    measure: spec_fn(Seq<char>) -> nat,
)
    requires
        scan_ok(s, multi, floor, summary, measure),
        s.parts.len() > 0 || s.bytes > 0,
        0 < multi <= single < 2 * floor,
        measure(Seq::empty()) == 0,
        additive(measure),
    ensures
        ({
            let r = finish(s, single);
            &&& r.parts.len() >= 1
            &&& r.total_bytes == s.total_bytes + s.bytes
            &&& r.total_length == s.total_length + s.length
            &&& r.total_bytes == sum_bytes(r.parts)
            &&& r.total_length == sum_length(r.parts)
            &&& within_budget(r.parts, single, multi)
            &&& r.total_bytes <= single ==> r.parts.len() == 1
            &&& r.total_bytes > single ==> r.parts.len() >= 2
            &&& joined(r.parts) == joined(s.parts) + s.text
            &&& summary ==> forall|i: int|
                0 <= i < r.parts.len() ==> (#[trigger] r.parts[i]).content.len() == 0
            &&& !summary ==> forall|i: int|
                0 <= i < r.parts.len() ==> (#[trigger] r.parts[i]).length == measure(
                    r.parts[i].content,
                )
        }),
{
    let t = banked(s);
    let r = finish(s, single);
    // `t` holds parts of at least `floor` bytes but for the last one.
    if s.bytes > 0 {
        let p = PartView { content: s.text, length: s.length, bytes: s.bytes };
        lemma_push_sums(s.parts, p);
        assert(t.parts.drop_last() =~= s.parts);
    } else {
        assert(joined(s.parts) + s.text =~= joined(s.parts));
    }
    assert(t.total_bytes == sum_bytes(t.parts));
    assert(t.total_length == sum_length(t.parts));
    assert(joined(t.parts) == joined(s.parts) + s.text);
    assert(t.parts.len() >= 1);
    assert forall|i: int| 0 <= i < t.parts.len() implies #[trigger] t.parts[i].bytes <= multi by {
        if i < s.parts.len() {
            assert(t.parts[i] == s.parts[i]);
        }
    }
    if summary {
        assert forall|i: int| 0 <= i < t.parts.len() implies (
        #[trigger] t.parts[i]).content.len() == 0 by {
            if i < s.parts.len() {
                assert(t.parts[i] == s.parts[i]);
            }
        }
    } else {
        assert forall|i: int| 0 <= i < t.parts.len() implies (#[trigger] t.parts[i]).length
            == measure(t.parts[i].content) by {
            if i < s.parts.len() {
                assert(t.parts[i] == s.parts[i]);
            }
        }
    }
    if t.parts.len() > 1 && t.total_bytes <= single {
        // Only two parts can fit: three would hold two full ones.
        if t.parts.len() > 2 {
            lemma_sum_bytes_floor(s.parts, floor);
            assert(s.parts.len() >= 2);
            assert(floor * s.parts.len() >= floor * 2) by (nonlinear_arith)
                requires
                    s.parts.len() >= 2,
            ;
            assert(sum_bytes(t.parts) >= sum_bytes(s.parts)) by {
                if s.bytes > 0 {
                } else {
                    assert(t.parts == s.parts);
                }
            }
        }
        assert(t.parts.len() == 2);
        let p0 = t.parts[0];
        let p1 = t.parts[1];
        assert(t.parts.drop_last() =~= seq![p0]);
        lemma_single(p0);
        let m = PartView {
            content: p0.content + p1.content,
            length: t.total_length,
            bytes: t.total_bytes,
        };
        assert(r.parts =~= seq![m]);
        lemma_single(m);
        if !summary {
            assert(measure(p0.content + p1.content) == measure(p0.content) + measure(p1.content));
        }
    } else if t.parts.len() == 1 {
        assert(t.parts =~= seq![t.parts[0]]);
        lemma_single(t.parts[0]);
    }
}

/// Two sequences of parts that agree on every part's length and bytes.
pub open spec fn same_part_counts(a: Seq<PartView>, b: Seq<PartView>) -> bool {
    &&& a.len() == b.len()
    &&& forall|i: int|
        0 <= i < a.len() ==> (#[trigger] a[i]).length == b[i].length && a[i].bytes == b[i].bytes
}

/// Two scans that agree on every count, whatever text they hold.
pub open spec fn same_counts(a: ScanView, b: ScanView) -> bool {
    &&& same_part_counts(a.parts, b.parts)
    &&& a.length == b.length
    &&& a.bytes == b.bytes
    &&& a.total_length == b.total_length
    &&& a.total_bytes == b.total_bytes
}

/// Two results that agree on every count, whatever text they hold.
pub open spec fn same_result_counts(a: ResultView, b: ResultView) -> bool {
    &&& same_part_counts(a.parts, b.parts)
    &&& a.total_length == b.total_length
    &&& a.total_bytes == b.total_bytes
}

pub proof fn lemma_bank_same_counts(a: ScanView, b: ScanView)
    requires
        same_counts(a, b),
    ensures
        same_counts(bank(a), bank(b)),
{
    let (x, y) = (bank(a), bank(b));
    assert forall|i: int| 0 <= i < x.parts.len() implies (#[trigger] x.parts[i]).length
        == y.parts[i].length && x.parts[i].bytes == y.parts[i].bytes by {
        if i < a.parts.len() {
            assert(x.parts[i] == a.parts[i] && y.parts[i] == b.parts[i]);
        }
    }
}

pub proof fn lemma_finish_same_counts(a: ScanView, b: ScanView, single: nat)
    requires
        same_counts(a, b),
    ensures
        same_result_counts(finish(a, single), finish(b, single)),
{
    if a.bytes > 0 {
        lemma_bank_same_counts(a, b);
    }
}

/// A scan under way, run by the segmenters.
pub(crate) struct PartBuilder {
    pub(crate) parts: Vec<SplitterPart>,
    pub(crate) text: String,
    pub(crate) length: usize,
    pub(crate) bytes: usize,
    pub(crate) total_length: usize,
    pub(crate) total_bytes: usize,
    pub(crate) summary: bool,
}

impl PartBuilder {
    /// The scan this builder holds.
    pub(crate) open spec fn state(&self) -> ScanView {
        ScanView {
            parts: part_views(self.parts@),
            text: self.text@,
            length: self.length as nat,
            bytes: self.bytes as nat,
            total_length: self.total_length as nat,
            total_bytes: self.total_bytes as nat,
        }
    }

    pub(crate) fn new(summary: bool) -> (r: PartBuilder)
        ensures
            r.state() == scan_start(),
            r.summary == summary,
    {
        let r = PartBuilder {
            parts: Vec::new(),
            text: String::new(),
            length: 0,
            bytes: 0,
            total_length: 0,
            total_bytes: 0,
            summary,
        };
        assert(r.state().parts =~= Seq::<PartView>::empty());
        r
    }

    pub(crate) fn bank(&mut self)
        requires
            old(self).total_length + old(self).length <= usize::MAX,
            old(self).total_bytes + old(self).bytes <= usize::MAX,
        ensures
            final(self).state() == bank(old(self).state()),
            final(self).summary == old(self).summary,
    {
        let mut text = String::new();
        core::mem::swap(&mut text, &mut self.text);
        let part = SplitterPart::new(text, self.length, self.bytes);
        self.parts.push(part);
        self.total_length = self.total_length + self.length;
        self.total_bytes = self.total_bytes + self.bytes;
        self.length = 0;
        self.bytes = 0;
        assert(self.state().parts =~= bank(old(self).state()).parts);
        assert(self.state().text =~= Seq::<char>::empty());
    }

    pub(crate) fn take(&mut self, c: char, units: usize, cost: usize)
        requires
            old(self).length + units <= usize::MAX,
            old(self).bytes + cost <= usize::MAX,
        ensures
            final(self).state() == take_char(old(self).state(), c, units as nat, cost as nat, old(self).summary),
            final(self).summary == old(self).summary,
    {
        if !self.summary {
            push_char(&mut self.text, c);
        }
        self.length = self.length + units;
        self.bytes = self.bytes + cost;
    }

    pub(crate) fn finish(self, single: usize) -> (r: SplitterResult)
        requires
            self.total_length + self.length <= usize::MAX,
            self.total_bytes + self.bytes <= usize::MAX,
        ensures
            r@ == finish(self.state(), single as nat),
    {
        let mut b = self;
        if b.bytes > 0 {
            b.bank();
        }
        if b.parts.len() > 1 && b.total_bytes <= single {
            let mut content = b.parts[0].content.clone();
            content.append(b.parts[1].content.as_str());
            let merged = SplitterPart::new(content, b.total_length, b.total_bytes);
            let r = SplitterResult {
                parts: vec![merged],
                total_length: b.total_length,
                total_bytes: b.total_bytes,
            };
            assert(r@.parts =~= finish(self.state(), single as nat).parts);
            r
        } else {
            SplitterResult { parts: b.parts, total_length: b.total_length, total_bytes: b.total_bytes }
        }
    }
}

} // verus!
