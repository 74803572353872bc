//! Splits a text message into the SMS segments it is sent in: GSM 03.38 7-bit
//! text, optionally with the Turkish, Spanish and Portuguese shift tables, or
//! UCS-2 for everything else, under the byte budgets of single and
//! concatenated messages.
use vstd::prelude::*;

pub mod gsm_splitter;
pub mod gsm_validator;
pub mod segment;
pub mod splitter_options;
pub mod splitter_result;
pub mod text;
pub mod unicode_splitter;

use gsm_splitter::{
    gsm_split, gsm_text, lemma_gsm_summary_keeps_counts, GsmSplitter, GSM_MULTI_BYTES,
    GSM_SINGLE_BYTES,
};
use gsm_validator::{all_basic, GsmValidator};
use segment::same_part_counts;
use splitter_options::SplitterOptions;
use splitter_result::{joined, sum_bytes, sum_length, within_budget, PartView, SplitterPart};
use unicode_splitter::{
    lemma_unicode_summary_keeps_counts, unicode_split, UnicodeSplitter, UNICODE_MULTI_BYTES,
    UNICODE_SINGLE_BYTES,
};

verus! {

/// A message goes as GSM when the alphabet holds every one of its characters;
/// otherwise it goes as Unicode.
pub open spec fn is_gsm_message(msg: Seq<char>, options: SplitterOptions) -> bool {
    all_basic(msg, options.support_shift_tables)
}

/// The name of the character set chosen.
pub open spec fn charset_name(gsm: bool) -> Seq<char> {
    if gsm {
        "GSM"@
    } else {
        "Unicode"@
    }
}

/// Characters of `char_bytes` bytes each that still fit in the last part: the
/// budget is `single` for a one-part result and `multi` otherwise.
pub open spec fn remaining_in(parts: Seq<PartView>, single: nat, multi: nat, char_bytes: nat) -> nat {
    let budget: int = if parts.len() == 1 {
        single as int
    } else {
        multi as int
    };
    ((budget - parts.last().bytes) / char_bytes as int) as nat
}

/// A split message, as mathematical values.
pub struct SplitSmsView {
    pub character_set: Seq<char>,
    pub parts: Seq<PartView>,
    pub bytes: nat,
    pub length: nat,
    pub remaining_in_part: nat,
}

/// How `msg` is split under `options`.
pub open spec fn sms_split(msg: Seq<char>, options: SplitterOptions) -> SplitSmsView {
    let gsm = is_gsm_message(msg, options);
    let r = if gsm {
        gsm_split(msg, options.support_shift_tables, options.summary)
    } else {
        unicode_split(msg, options.summary)
    };
    SplitSmsView {
        character_set: charset_name(gsm),
        parts: r.parts,
        bytes: r.total_bytes,
        length: r.total_length,
        remaining_in_part: if gsm {
            remaining_in(r.parts, GSM_SINGLE_BYTES as nat, GSM_MULTI_BYTES as nat, 1)
        } else {
            remaining_in(r.parts, UNICODE_SINGLE_BYTES as nat, UNICODE_MULTI_BYTES as nat, 2)
        },
    }
}

/// A message that goes as GSM carries its own text.
pub proof fn lemma_gsm_text_of_gsm_message(msg: Seq<char>, shift_tables: bool)
    requires
        all_basic(msg, shift_tables),
    ensures
        gsm_text(msg, shift_tables) == msg,
{
    assert(gsm_text(msg, shift_tables) =~= msg);
}

/// Classification depends on the message and the options alone: two splits of
/// one message under the same options name the same character set.
pub proof fn lemma_classification_is_stable(
    msg: Seq<char>,
    options: SplitterOptions,
    first: SplitSmsView,
    second: SplitSmsView,
)
    requires
        first == sms_split(msg, options),
        second == sms_split(msg, options),
    ensures
        first.character_set == second.character_set,
        first.character_set == charset_name(is_gsm_message(msg, options)),
{
}

/// Asking for a summary changes nothing but the text: the character set, the
/// parts' lengths and bytes, the totals and the room left in the last part are
/// those of the full split.
pub proof fn lemma_summary_keeps_counts(msg: Seq<char>, shift_tables: bool)
    ensures
        ({
            let a = sms_split(msg, SplitterOptions { support_shift_tables: shift_tables, summary: true });
            let b = sms_split(msg, SplitterOptions { support_shift_tables: shift_tables, summary: false });
            &&& a.character_set == b.character_set
            &&& same_part_counts(a.parts, b.parts)
            &&& a.bytes == b.bytes
            &&& a.length == b.length
            &&& a.remaining_in_part == b.remaining_in_part
        }),
{
    lemma_gsm_summary_keeps_counts(msg, shift_tables);
    lemma_unicode_summary_keeps_counts(msg);
}

/// Splits messages, choosing the character set first.
#[derive(Clone, Copy, Debug)]
pub struct SplitSms {
    options: SplitterOptions,
}

impl Default for SplitSms {
    fn default() -> (r: SplitSms)
        ensures
            !r.spec_options().support_shift_tables,
            !r.spec_options().summary,
    {
        SplitSms::new(SplitterOptions::default())
    }
}

impl SplitSms {
    /// The options this splitter was made with.
    pub closed spec fn spec_options(&self) -> SplitterOptions {
        self.options
    }

    pub fn new(options: SplitterOptions) -> (r: SplitSms)
        ensures
            r.spec_options() == options,
    {
        SplitSms { options }
    }

    fn calculate_remaining(
        &self,
        parts: &Vec<SplitterPart>,
        single_bytes: usize,
        multi_bytes: usize,
        char_bytes: usize,
    ) -> (r: usize)
        requires
            parts@.len() >= 1,
            char_bytes > 0,
            parts@.len() == 1 ==> parts@.last().bytes <= single_bytes,
            parts@.len() > 1 ==> parts@.last().bytes <= multi_bytes,
        ensures
            r == remaining_in(
                splitter_result::part_views(parts@),
                single_bytes as nat,
                multi_bytes as nat,
                char_bytes as nat,
            ),
    {
        let mut max = multi_bytes;
        if parts.len() == 1 {
            max = single_bytes;
        }
        (max - parts[parts.len() - 1].bytes) / char_bytes
    }

    fn validate_message(&self, message: &String) -> (r: bool)
        ensures
            r == is_gsm_message(message@, self.options),
    {
        if self.options.support_shift_tables {
            GsmValidator::new().validate_message_with_shift_table(message.clone())
        } else {
            GsmValidator::new().validate_message(message.clone())
        }
    }

    /// Splits `message`: as GSM when the alphabet (with the shift tables, if
    /// asked for) holds all of it, as Unicode otherwise.
    pub fn split(&self, message: String) -> (r: SplitSmsResult)
        requires
            message@.len() <= usize::MAX / 4,
        ensures
            r@ == sms_split(message@, self.spec_options()),
            r@.parts.len() >= 1,
            r@.bytes == sum_bytes(r@.parts),
            r@.length == sum_length(r@.parts),
            is_gsm_message(message@, self.spec_options()) ==> within_budget(
                r@.parts,
                GSM_SINGLE_BYTES as nat,
                GSM_MULTI_BYTES as nat,
            ) && (r.bytes <= GSM_SINGLE_BYTES <==> r@.parts.len() == 1),
            !is_gsm_message(message@, self.spec_options()) ==> within_budget(
                r@.parts,
                UNICODE_SINGLE_BYTES as nat,
                UNICODE_MULTI_BYTES as nat,
            ) && (r.bytes <= UNICODE_SINGLE_BYTES <==> r@.parts.len() == 1),
            !self.spec_options().summary ==> joined(r@.parts) == message@,
    {
        let shift_tables = self.options.support_shift_tables;
        let summary = self.options.summary;
        let options = SplitterOptions::new(shift_tables, summary);
        if self.validate_message(&message) {
            proof {
                lemma_gsm_text_of_gsm_message(message@, shift_tables);
            }
            let res = GsmSplitter::new(options).split(message);
            let remaining = self.calculate_remaining(
                &res.parts,
                GSM_SINGLE_BYTES,
                GSM_MULTI_BYTES,
                1,
            );
            SplitSmsResult::new(
                String::from_str("GSM"),
                res.parts,
                res.total_bytes,
                res.total_length,
                remaining,
            )
        } else {
            let res = UnicodeSplitter::new(options).split(message);
            let remaining = self.calculate_remaining(
                &res.parts,
                UNICODE_SINGLE_BYTES,
                UNICODE_MULTI_BYTES,
                2,
            );
            SplitSmsResult::new(
                String::from_str("Unicode"),
                res.parts,
                res.total_bytes,
                res.total_length,
                remaining,
            )
        }
    }
}

/// A split message: its character set, its parts, their totals, and how many
/// more characters the last part could take.
#[derive(Clone, Debug)]
pub struct SplitSmsResult {
    pub character_set: String,
    pub parts: Vec<SplitterPart>,
    pub bytes: usize,
    pub length: usize,
    pub remaining_in_part: usize,
}

impl View for SplitSmsResult {
    type V = SplitSmsView;

    open spec fn view(&self) -> SplitSmsView {
        SplitSmsView {
            character_set: self.character_set@,
            parts: splitter_result::part_views(self.parts@),
            bytes: self.bytes as nat,
            length: self.length as nat,
            remaining_in_part: self.remaining_in_part as nat,
        }
    }
}

impl SplitSmsResult {
    pub fn new(
        character_set: String,
        parts: Vec<SplitterPart>,
        bytes: usize,
        length: usize,
        remaining_in_part: usize,
    ) -> (r: SplitSmsResult)
        ensures
            r.character_set == character_set,
            r.parts == parts,
            r.bytes == bytes,
            r.length == length,
            r.remaining_in_part == remaining_in_part,
    {
        SplitSmsResult { character_set, parts, bytes, length, remaining_in_part }
    }
}

} // verus!
