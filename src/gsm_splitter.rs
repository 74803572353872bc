use vstd::prelude::*;

use crate::gsm_validator::{basic_char, extended_char, is_basic, is_extended};
use crate::segment::{
    bank, finish, lemma_bank_ok, lemma_bank_same_counts, lemma_empty_result, lemma_finish,
    lemma_finish_same_counts, same_counts, same_result_counts, scan_ok, scan_start, take_char,
    PartBuilder, ScanView,
};
use crate::splitter_options::SplitterOptions;
use crate::splitter_result::{
    empty_result, joined, sum_bytes, sum_length, within_budget, ResultView, SplitterResult,
};
use crate::text::chars_of;

verus! {

/// Bytes in a message sent as one GSM segment.
pub const GSM_SINGLE_BYTES: usize = 160;

/// Bytes in each segment of a concatenated GSM message; the rest of the
/// segment holds the concatenation header.
pub const GSM_MULTI_BYTES: usize = 153;

/// What is sent for `c`: the character itself, or a space in its place when
/// the alphabet lacks it.
pub open spec fn gsm_char(c: char, shift_tables: bool) -> char {
    if is_basic(c, shift_tables) {
        c
    } else {
        ' '
    }
}

/// The text that a GSM message carries.
pub open spec fn gsm_text(msg: Seq<char>, shift_tables: bool) -> Seq<char> {
    msg.map_values(|c: char| gsm_char(c, shift_tables))
}

/// In GSM mode a part is measured in characters.
pub open spec fn char_count() -> spec_fn(Seq<char>) -> nat {
    |t: Seq<char>| t.len()
}

/// One character of a GSM scan. An extension character costs an escape byte
/// more, and never straddles two parts: when only one byte is left, the part is
/// banked first. A part that reaches the budget is banked.
pub open spec fn gsm_step(s: ScanView, c: char, shift_tables: bool, summary: bool) -> ScanView {
    let ext = is_basic(c, shift_tables) && is_extended(c, shift_tables);
    let s1 = if ext && s.bytes == GSM_MULTI_BYTES - 1 {
        bank(s)
    } else {
        s
    };
    let s2 = take_char(
        s1,
        gsm_char(c, shift_tables),
        1,
        if ext {
            2
        } else {
            1
        },
        summary,
    );
    if s2.bytes == GSM_MULTI_BYTES {
        bank(s2)
    } else {
        s2
    }
}

/// The scan of `msg`, character by character.
pub open spec fn gsm_scan(msg: Seq<char>, shift_tables: bool, summary: bool) -> ScanView
    decreases msg.len(),
{
    if msg.len() == 0 {
        scan_start()
    } else {
        gsm_step(gsm_scan(msg.drop_last(), shift_tables, summary), msg.last(), shift_tables, summary)
    }
}

/// The parts of a GSM message.
pub open spec fn gsm_split(msg: Seq<char>, shift_tables: bool, summary: bool) -> ResultView {
    if msg.len() == 0 {
        empty_result()
    } else {
        finish(gsm_scan(msg, shift_tables, summary), GSM_SINGLE_BYTES as nat)
    }
}

proof fn lemma_gsm_scan(msg: Seq<char>, shift_tables: bool, summary: bool)
    ensures
        ({
            let s = gsm_scan(msg, shift_tables, summary);
            &&& scan_ok(s, GSM_MULTI_BYTES as nat, (GSM_MULTI_BYTES - 1) as nat, summary, char_count())
            &&& s.total_bytes + s.bytes <= 2 * msg.len()
            &&& s.total_length + s.length == msg.len()
            &&& msg.len() > 0 ==> s.parts.len() > 0 || s.bytes > 0
            &&& !summary ==> joined(s.parts) + s.text == gsm_text(msg, shift_tables)
        }),
    decreases msg.len(),
{
    let multi = GSM_MULTI_BYTES as nat;
    let floor = (GSM_MULTI_BYTES - 1) as nat;
    let m = char_count();
    if msg.len() == 0 {
        assert(gsm_text(msg, shift_tables) =~= Seq::<char>::empty());
        assert(joined(Seq::empty()) + Seq::<char>::empty() =~= Seq::<char>::empty());
    } else {
        let prev = msg.drop_last();
        let c = msg.last();
        lemma_gsm_scan(prev, shift_tables, summary);
        let s = gsm_scan(prev, shift_tables, summary);
        let ext = is_basic(c, shift_tables) && is_extended(c, shift_tables);
        let s1 = if ext && s.bytes == GSM_MULTI_BYTES - 1 {
            bank(s)
        } else {
            s
        };
        if ext && s.bytes == GSM_MULTI_BYTES - 1 {
            lemma_bank_ok(s, multi, floor, summary, m);
        }
        let g = gsm_char(c, shift_tables);
        let s2 = take_char(s1, g, 1, if ext { 2 } else { 1 }, summary);
        assert(s2.parts == s1.parts);
        assert(gsm_text(msg, shift_tables) =~= gsm_text(prev, shift_tables).push(g));
        if !summary {
            assert(joined(s2.parts) + s2.text =~= (joined(s1.parts) + s1.text).push(g));
        }
        if s2.bytes == GSM_MULTI_BYTES {
            lemma_bank_ok(s2, multi, floor, summary, m);
        }
    }
}

proof fn lemma_gsm_scan_same_counts(msg: Seq<char>, shift_tables: bool)
    ensures
        same_counts(gsm_scan(msg, shift_tables, true), gsm_scan(msg, shift_tables, false)),
    decreases msg.len(),
{
    if msg.len() > 0 {
        let prev = msg.drop_last();
        let c = msg.last();
        lemma_gsm_scan_same_counts(prev, shift_tables);
        let (a, b) = (gsm_scan(prev, shift_tables, true), gsm_scan(prev, shift_tables, false));
        let ext = is_basic(c, shift_tables) && is_extended(c, shift_tables);
        let (a1, b1) = if ext && a.bytes == GSM_MULTI_BYTES - 1 {
            lemma_bank_same_counts(a, b);
            (bank(a), bank(b))
        } else {
            (a, b)
        };
        let g = gsm_char(c, shift_tables);
        let cost: nat = if ext { 2 } else { 1 };
        let (a2, b2) = (take_char(a1, g, 1, cost, true), take_char(b1, g, 1, cost, false));
        assert(same_counts(a2, b2));
        if a2.bytes == GSM_MULTI_BYTES {
            lemma_bank_same_counts(a2, b2);
        }
    }
}

/// A summary holds the parts of the full split, with the same lengths and
/// bytes, and the same totals: only the text is left out.
pub proof fn lemma_gsm_summary_keeps_counts(msg: Seq<char>, shift_tables: bool)
    ensures
        same_result_counts(gsm_split(msg, shift_tables, true), gsm_split(msg, shift_tables, false)),
{
    if msg.len() > 0 {
        lemma_gsm_scan_same_counts(msg, shift_tables);
        lemma_finish_same_counts(
            gsm_scan(msg, shift_tables, true),
            gsm_scan(msg, shift_tables, false),
            GSM_SINGLE_BYTES as nat,
        );
    }
}

/// Splits messages in the GSM 7-bit alphabet.
#[derive(Clone, Copy, Debug)]
pub struct GsmSplitter {
    options: SplitterOptions,
}

impl GsmSplitter {
    /// The options this splitter was made with.
    pub closed spec fn spec_options(&self) -> SplitterOptions {
        self.options
    }

    pub fn new(options: SplitterOptions) -> (r: GsmSplitter)
        ensures
            r.spec_options() == options,
    {
        GsmSplitter { options }
    }

    /// Splits `message` into GSM parts of at most 153 bytes, or one part of
    /// at most 160. Characters outside the alphabet are sent as spaces.
    pub fn split(&self, message: String) -> (r: SplitterResult)
        requires
            message@.len() <= usize::MAX / 4,
        ensures
            r@ == gsm_split(
                message@,
                self.spec_options().support_shift_tables,
                self.spec_options().summary,
            ),
            r@.parts.len() >= 1,
            r@.total_length == message@.len(),
            r@.total_bytes == sum_bytes(r@.parts),
            r@.total_length == sum_length(r@.parts),
            within_budget(r@.parts, GSM_SINGLE_BYTES as nat, GSM_MULTI_BYTES as nat),
            r.total_bytes <= GSM_SINGLE_BYTES ==> r@.parts.len() == 1,
            r.total_bytes > GSM_SINGLE_BYTES ==> r@.parts.len() >= 2,
            !self.spec_options().summary ==> joined(r@.parts) == gsm_text(
                message@,
                self.spec_options().support_shift_tables,
            ),
            !self.spec_options().summary ==> forall|i: int|
                0 <= i < r@.parts.len() ==> (#[trigger] r@.parts[i]).length
                    == r@.parts[i].content.len(),
            self.spec_options().summary ==> forall|i: int|
                0 <= i < r@.parts.len() ==> (#[trigger] r@.parts[i]).content.len() == 0,
    {
        let shift_tables = self.options.support_shift_tables;
        let summary = self.options.summary;
        let chars = chars_of(message.as_str());
        if chars.len() == 0 {
            let r = SplitterResult::empty();
            proof {
                assert(gsm_text(message@, shift_tables) =~= Seq::<char>::empty());
                lemma_empty_result();
            }
            return r;
        }
        let mut b = PartBuilder::new(summary);
        let mut i: usize = 0;
        while i < chars.len()
            invariant
                chars@ == message@,
                chars@.len() <= usize::MAX / 4,
                shift_tables == self.options.support_shift_tables,
                i <= chars@.len(),
                b.summary == summary,
                b.state() == gsm_scan(chars@.take(i as int), shift_tables, summary),
            decreases chars.len() - i,
        {
            proof {
                lemma_gsm_scan(chars@.take(i as int), shift_tables, summary);
            }
            let c = chars[i];
            let basic = self.validate_character(c);
            let ext = basic && self.validate_extended_character(c);
            if ext && b.bytes == GSM_MULTI_BYTES - 1 {
                b.bank();
            }
            let sent = if basic {
                c
            } else {
                ' '
            };
            b.take(sent, 1, if ext { 2 } else { 1 });
            if b.bytes == GSM_MULTI_BYTES {
                b.bank();
            }
            assert(chars@.take(i + 1).drop_last() =~= chars@.take(i as int));
            assert(chars@.take(i + 1).last() == c);
            i = i + 1;
        }
        assert(chars@.take(i as int) =~= chars@);
        proof {
            lemma_gsm_scan(chars@, shift_tables, summary);
            lemma_finish(
                b.state(),
                GSM_SINGLE_BYTES as nat,
                GSM_MULTI_BYTES as nat,
                (GSM_MULTI_BYTES - 1) as nat,
                summary,
                char_count(),
            );
            assert(joined(Seq::empty()) + Seq::<char>::empty() =~= Seq::<char>::empty());
        }
        b.finish(GSM_SINGLE_BYTES)
    }

    fn validate_character(&self, c: char) -> (r: bool)
        ensures
            r == is_basic(c, self.options.support_shift_tables),
    {
        basic_char(c, self.options.support_shift_tables)
    }

    fn validate_extended_character(&self, c: char) -> (r: bool)
        ensures
            r == is_extended(c, self.options.support_shift_tables),
    {
        extended_char(c, self.options.support_shift_tables)
    }
}

impl Default for GsmSplitter {
    fn default() -> (r: GsmSplitter)
        ensures
            !r.spec_options().support_shift_tables,
            !r.spec_options().summary,
    {
        GsmSplitter::new(SplitterOptions::default())
    }
}

} // verus!
