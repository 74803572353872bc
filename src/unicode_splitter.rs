use vstd::prelude::*;

use crate::segment::{
    bank, finish, lemma_bank_ok, lemma_bank_same_counts, lemma_empty_result, lemma_finish,
    lemma_finish_same_counts, same_counts, same_result_counts, scan_ok, scan_start, take_char,
    PartBuilder, ScanView,
};
use crate::splitter_options::SplitterOptions;
use crate::splitter_result::{
    empty_result, joined, sum_bytes, sum_length, within_budget, ResultView, SplitterResult,
};
use crate::text::chars_of;

verus! {

/// Bytes in a message sent as one UCS-2 segment.
pub const UNICODE_SINGLE_BYTES: usize = 140;

/// Bytes in each segment of a concatenated UCS-2 message.
pub const UNICODE_MULTI_BYTES: usize = 134;

/// UTF-16 code units of `c`: two, a surrogate pair, outside the Basic
/// Multilingual Plane.
pub open spec fn utf16_units(c: char) -> nat {
    if c as u32 >= 0x10000 {
        2
    } else {
        1
    }
}

/// UTF-16 code units of a text.
pub open spec fn utf16_len(t: Seq<char>) -> nat
    decreases t.len(),
{
    if t.len() == 0 {
        0
    } else {
        utf16_len(t.drop_last()) + utf16_units(t.last())
    }
}

/// In Unicode mode a part is measured in UTF-16 code units.
pub open spec fn utf16_count() -> spec_fn(Seq<char>) -> nat {
    |t: Seq<char>| utf16_len(t)
}

pub proof fn lemma_utf16_len_concat(a: Seq<char>, b: Seq<char>)
    ensures
        utf16_len(a + b) == utf16_len(a) + utf16_len(b),
    decreases b.len(),
{
    if b.len() == 0 {
        assert(a + b =~= a);
    } else {
        lemma_utf16_len_concat(a, b.drop_last());
        assert((a + b).drop_last() =~= a + b.drop_last());
        assert((a + b).last() == b.last());
    }
}

proof fn lemma_utf16_len_bound(t: Seq<char>)
    ensures
        utf16_len(t) <= 2 * t.len(),
    decreases t.len(),
{
    if t.len() > 0 {
        lemma_utf16_len_bound(t.drop_last());
    }
}

/// One character of a Unicode scan, two bytes for each code unit. A surrogate
/// pair that would not fit in the running part opens the next one, so that no
/// part ends between its two halves. A part that reaches the budget is banked.
pub open spec fn unicode_step(s: ScanView, c: char, summary: bool) -> ScanView {
    let u = utf16_units(c);
    let s1 = if u == 2 && s.bytes == UNICODE_MULTI_BYTES - 2 {
        bank(s)
    } else {
        s
    };
    let s2 = take_char(s1, c, u, 2 * u, summary);
    if s2.bytes == UNICODE_MULTI_BYTES {
        bank(s2)
    } else {
        s2
    }
}

/// The scan of `msg`, character by character.
pub open spec fn unicode_scan(msg: Seq<char>, summary: bool) -> ScanView
    decreases msg.len(),
{
    if msg.len() == 0 {
        scan_start()
    } else {
        unicode_step(unicode_scan(msg.drop_last(), summary), msg.last(), summary)
    }
}

/// The parts of a Unicode message.
pub open spec fn unicode_split(msg: Seq<char>, summary: bool) -> ResultView {
    if msg.len() == 0 {
        empty_result()
    } else {
        finish(unicode_scan(msg, summary), UNICODE_SINGLE_BYTES as nat)
    }
}

proof fn lemma_unicode_scan(msg: Seq<char>, summary: bool)
    ensures
        ({
            let s = unicode_scan(msg, summary);
            &&& scan_ok(
                s,
                UNICODE_MULTI_BYTES as nat,
                (UNICODE_MULTI_BYTES - 2) as nat,
                summary,
                utf16_count(),
            )
            &&& s.bytes % 2 == 0
            &&& s.total_bytes + s.bytes == 2 * utf16_len(msg)
            &&& s.total_length + s.length == utf16_len(msg)
            &&& msg.len() > 0 ==> s.parts.len() > 0 || s.bytes > 0
            &&& !summary ==> joined(s.parts) + s.text == msg
        }),
    decreases msg.len(),
{
    let multi = UNICODE_MULTI_BYTES as nat;
    let floor = (UNICODE_MULTI_BYTES - 2) as nat;
    let m = utf16_count();
    if msg.len() == 0 {
        assert(joined(Seq::empty()) + Seq::<char>::empty() =~= msg);
    } else {
        let prev = msg.drop_last();
        let c = msg.last();
        lemma_unicode_scan(prev, summary);
        let s = unicode_scan(prev, summary);
        let u = utf16_units(c);
        let s1 = if u == 2 && s.bytes == UNICODE_MULTI_BYTES - 2 {
            bank(s)
        } else {
            s
        };
        if u == 2 && s.bytes == UNICODE_MULTI_BYTES - 2 {
            lemma_bank_ok(s, multi, floor, summary, m);
        }
        let s2 = take_char(s1, c, u, 2 * u, summary);
        assert(s2.parts == s1.parts);
        if !summary {
            assert(joined(s2.parts) + s2.text =~= (joined(s1.parts) + s1.text).push(c));
            assert(prev.push(c) =~= msg);
            assert(s1.text.push(c).drop_last() =~= s1.text);
        }
        if s2.bytes == UNICODE_MULTI_BYTES {
            lemma_bank_ok(s2, multi, floor, summary, m);
        }
    }
}

proof fn lemma_unicode_scan_same_counts(msg: Seq<char>)
    ensures
        same_counts(unicode_scan(msg, true), unicode_scan(msg, false)),
    decreases msg.len(),
{
    if msg.len() > 0 {
        let prev = msg.drop_last();
        let c = msg.last();
        lemma_unicode_scan_same_counts(prev);
        let (a, b) = (unicode_scan(prev, true), unicode_scan(prev, false));
        let u = utf16_units(c);
        let (a1, b1) = if u == 2 && a.bytes == UNICODE_MULTI_BYTES - 2 {
            lemma_bank_same_counts(a, b);
            (bank(a), bank(b))
        } else {
            (a, b)
        };
        let (a2, b2) = (take_char(a1, c, u, 2 * u, true), take_char(b1, c, u, 2 * u, false));
        assert(same_counts(a2, b2));
        if a2.bytes == UNICODE_MULTI_BYTES {
            lemma_bank_same_counts(a2, b2);
        }
    }
}

/// A summary holds the parts of the full split, with the same lengths and
/// bytes, and the same totals: only the text is left out.
pub proof fn lemma_unicode_summary_keeps_counts(msg: Seq<char>)
    ensures
        same_result_counts(unicode_split(msg, true), unicode_split(msg, false)),
{
    if msg.len() > 0 {
        lemma_unicode_scan_same_counts(msg);
        lemma_finish_same_counts(
            unicode_scan(msg, true),
            unicode_scan(msg, false),
            UNICODE_SINGLE_BYTES as nat,
        );
    }
}

/// Splits messages sent as UCS-2, two bytes for each UTF-16 code unit.
#[derive(Clone, Copy, Debug)]
pub struct UnicodeSplitter {
    options: SplitterOptions,
}

impl UnicodeSplitter {
    /// The options this splitter was made with.
    pub closed spec fn spec_options(&self) -> SplitterOptions {
        self.options
    }

    pub fn new(options: SplitterOptions) -> (r: UnicodeSplitter)
        ensures
            r.spec_options() == options,
    {
        UnicodeSplitter { options }
    }

    /// Splits `message` into UCS-2 parts of at most 134 bytes, or one part
    /// of at most 140, never inside a surrogate pair.
    pub fn split(&self, message: String) -> (r: SplitterResult)
        requires
            message@.len() <= usize::MAX / 4,
        ensures
            r@ == unicode_split(message@, self.spec_options().summary),
            r@.parts.len() >= 1,
            r@.total_length == utf16_len(message@),
            r@.total_bytes == 2 * utf16_len(message@),
            r@.total_bytes == sum_bytes(r@.parts),
            r@.total_length == sum_length(r@.parts),
            within_budget(r@.parts, UNICODE_SINGLE_BYTES as nat, UNICODE_MULTI_BYTES as nat),
            r.total_bytes <= UNICODE_SINGLE_BYTES ==> r@.parts.len() == 1,
            r.total_bytes > UNICODE_SINGLE_BYTES ==> r@.parts.len() >= 2,
            !self.spec_options().summary ==> joined(r@.parts) == message@,
            !self.spec_options().summary ==> forall|i: int|
                0 <= i < r@.parts.len() ==> (#[trigger] r@.parts[i]).length == utf16_len(
                    r@.parts[i].content,
                ),
            self.spec_options().summary ==> forall|i: int|
                0 <= i < r@.parts.len() ==> (#[trigger] r@.parts[i]).content.len() == 0,
    {
        let summary = self.options.summary;
        let chars = chars_of(message.as_str());
        if chars.len() == 0 {
            proof {
                lemma_empty_result();
            }
            return SplitterResult::empty();
        }
        let mut b = PartBuilder::new(summary);
        let mut i: usize = 0;
        while i < chars.len()
            invariant
                chars@ == message@,
                chars@.len() <= usize::MAX / 4,
                i <= chars@.len(),
                b.summary == summary,
                b.state() == unicode_scan(chars@.take(i as int), summary),
            decreases chars.len() - i,
        {
            proof {
                lemma_unicode_scan(chars@.take(i as int), summary);
                lemma_utf16_len_bound(chars@.take(i as int));
            }
            let c = chars[i];
            let pair = self.takes_surrogate_pair(c);
            if pair && b.bytes == UNICODE_MULTI_BYTES - 2 {
                b.bank();
            }
            if pair {
                b.take(c, 2, 4);
            } else {
                b.take(c, 1, 2);
            }
            if b.bytes == UNICODE_MULTI_BYTES {
                b.bank();
            }
            assert(chars@.take(i + 1).drop_last() =~= chars@.take(i as int));
            assert(chars@.take(i + 1).last() == c);
            i = i + 1;
        }
        assert(chars@.take(i as int) =~= chars@);
        proof {
            lemma_unicode_scan(chars@, summary);
            lemma_utf16_len_bound(chars@);
            assert forall|a: Seq<char>, b: Seq<char>|
                #[trigger] utf16_count()(a + b) == utf16_count()(a) + utf16_count()(b) by {
                lemma_utf16_len_concat(a, b);
            }
            lemma_finish(
                b.state(),
                UNICODE_SINGLE_BYTES as nat,
                UNICODE_MULTI_BYTES as nat,
                (UNICODE_MULTI_BYTES - 2) as nat,
                summary,
                utf16_count(),
            );
            assert(joined(Seq::empty()) + Seq::<char>::empty() =~= Seq::<char>::empty());
        }
        b.finish(UNICODE_SINGLE_BYTES)
    }

    /// Whether `c` is sent as a surrogate pair.
    fn takes_surrogate_pair(&self, c: char) -> (r: bool)
        ensures
            r == (utf16_units(c) == 2),
    {
        c as u32 >= 0x10000
    }
}

impl Default for UnicodeSplitter {
    fn default() -> (r: UnicodeSplitter)
        ensures
            !r.spec_options().support_shift_tables,
            !r.spec_options().summary,
    {
        UnicodeSplitter::new(SplitterOptions::default())
    }
}

} // verus!
