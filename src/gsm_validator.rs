use vstd::prelude::*;

use crate::text::chars_of;

verus! {

// The alphabets, as sets of Unicode code points. Each table is written twice,
// once as a spec predicate and once as the executable test that is proved
// equal to it; the two copies stand side by side.

/// GSM 03.38 default alphabet.
pub open spec fn in_default_basic(k: u32) -> bool {
    matches!(k,
        10 | 12 | 13 | 32..=95 | 97..=126 | 161 | 163..=165 | 167 | 191 | 196..=199 | 201 | 209
        | 214 | 216 | 220 | 223 | 224 | 228..=230 | 232 | 233 | 236 | 241 | 242 | 246 | 248 | 249
        | 252 | 915 | 916 | 920 | 923 | 926 | 928 | 931 | 934 | 936 | 937 | 8364)
}

fn default_basic(k: u32) -> (r: bool)
    ensures
        r == in_default_basic(k),
{
    matches!(k,
        10 | 12 | 13 | 32..=95 | 97..=126 | 161 | 163..=165 | 167 | 191 | 196..=199 | 201 | 209
        | 214 | 216 | 220 | 223 | 224 | 228..=230 | 232 | 233 | 236 | 241 | 242 | 246 | 248 | 249
        | 252 | 915 | 916 | 920 | 923 | 926 | 928 | 931 | 934 | 936 | 937 | 8364)
}

/// GSM 03.38 extension table: `\f ^ { } \ [ ~ ] | €`.
pub open spec fn in_default_extension(k: u32) -> bool {
    matches!(k, 12 | 91..=94 | 123..=126 | 8364)
}

fn default_extension(k: u32) -> (r: bool)
    ensures
        r == in_default_extension(k),
{
    matches!(k, 12 | 91..=94 | 123..=126 | 8364)
}

/// Turkish national alphabet.
pub open spec fn in_turkish_basic(k: u32) -> bool {
    matches!(k,
        10 | 12 | 13 | 32..=95 | 97..=126 | 163..=165 | 167 | 196 | 197 | 199 | 201 | 209 | 214
        | 220 | 223 | 224 | 228 | 229 | 231 | 233 | 241 | 242 | 246 | 249 | 252 | 286 | 287 | 304
        | 305 | 350 | 351 | 915 | 916 | 920 | 923 | 926 | 928 | 931 | 934 | 936 | 937 | 8364)
}

fn turkish_basic(k: u32) -> (r: bool)
    ensures
        r == in_turkish_basic(k),
{
    matches!(k,
        10 | 12 | 13 | 32..=95 | 97..=126 | 163..=165 | 167 | 196 | 197 | 199 | 201 | 209 | 214
        | 220 | 223 | 224 | 228 | 229 | 231 | 233 | 241 | 242 | 246 | 249 | 252 | 286 | 287 | 304
        | 305 | 350 | 351 | 915 | 916 | 920 | 923 | 926 | 928 | 931 | 934 | 936 | 937 | 8364)
}

/// Turkish extension table.
pub open spec fn in_turkish_extension(k: u32) -> bool {
    matches!(k, 12 | 91..=94 | 123..=126 | 286 | 287 | 304 | 305 | 350 | 351 | 8364)
}

fn turkish_extension(k: u32) -> (r: bool)
    ensures
        r == in_turkish_extension(k),
{
    matches!(k, 12 | 91..=94 | 123..=126 | 286 | 287 | 304 | 305 | 350 | 351 | 8364)
}

/// Spanish national alphabet.
pub open spec fn in_spanish_basic(k: u32) -> bool {
    matches!(k,
        10 | 12 | 13 | 32..=95 | 97..=126 | 161 | 163..=165 | 167 | 191 | 193 | 196..=199 | 201
        | 205 | 209 | 211 | 214 | 216 | 218 | 220 | 223..=225 | 228..=233 | 236 | 237 | 241..=243
        | 246 | 248..=250 | 252 | 915 | 916 | 920 | 923 | 926 | 928 | 931 | 934 | 936 | 937
        | 8364)
}

fn spanish_basic(k: u32) -> (r: bool)
    ensures
        r == in_spanish_basic(k),
{
    matches!(k,
        10 | 12 | 13 | 32..=95 | 97..=126 | 161 | 163..=165 | 167 | 191 | 193 | 196..=199 | 201
        | 205 | 209 | 211 | 214 | 216 | 218 | 220 | 223..=225 | 228..=233 | 236 | 237 | 241..=243
        | 246 | 248..=250 | 252 | 915 | 916 | 920 | 923 | 926 | 928 | 931 | 934 | 936 | 937
        | 8364)
}

/// Spanish extension table.
pub open spec fn in_spanish_extension(k: u32) -> bool {
    matches!(k, 12 | 91..=94 | 123..=126 | 193 | 205 | 211 | 218 | 225 | 231 | 237 | 243 | 250 | 8364)
}

fn spanish_extension(k: u32) -> (r: bool)
    ensures
        r == in_spanish_extension(k),
{
    matches!(k, 12 | 91..=94 | 123..=126 | 193 | 205 | 211 | 218 | 225 | 231 | 237 | 243 | 250 | 8364)
}

/// Portuguese national alphabet.
pub open spec fn in_portuguese_basic(k: u32) -> bool {
    matches!(k,
        10 | 12 | 13 | 32..=126 | 163 | 165 | 167 | 170 | 186 | 192..=195 | 199 | 201 | 202 | 205
        | 211..=213 | 218 | 220 | 224..=227 | 231 | 233 | 234 | 237 | 242..=245 | 250 | 252 | 915
        | 916 | 920 | 928 | 931 | 934 | 936 | 937 | 8364 | 8734)
}

fn portuguese_basic(k: u32) -> (r: bool)
    ensures
        r == in_portuguese_basic(k),
{
    matches!(k,
        10 | 12 | 13 | 32..=126 | 163 | 165 | 167 | 170 | 186 | 192..=195 | 199 | 201 | 202 | 205
        | 211..=213 | 218 | 220 | 224..=227 | 231 | 233 | 234 | 237 | 242..=245 | 250 | 252 | 915
        | 916 | 920 | 928 | 931 | 934 | 936 | 937 | 8364 | 8734)
}

/// Portuguese extension table.
pub open spec fn in_portuguese_extension(k: u32) -> bool {
    matches!(k,
        12 | 91..=94 | 123..=126 | 193..=195 | 202 | 205 | 211..=213 | 218 | 225..=227 | 231 | 234
        | 237 | 242 | 243 | 245 | 250 | 915 | 920 | 928 | 931 | 934 | 936 | 937 | 8364)
}

fn portuguese_extension(k: u32) -> (r: bool)
    ensures
        r == in_portuguese_extension(k),
{
    matches!(k,
        12 | 91..=94 | 123..=126 | 193..=195 | 202 | 205 | 211..=213 | 218 | 225..=227 | 231 | 234
        | 237 | 242 | 243 | 245 | 250 | 915 | 920 | 928 | 931 | 934 | 936 | 937 | 8364)
}

/// `c` belongs to the default alphabet or, with shift tables, to one of the
/// national alphabets.
pub open spec fn is_basic(c: char, shift_tables: bool) -> bool {
    let k = c as u32;
    in_default_basic(k) || (shift_tables && (in_turkish_basic(k) || in_spanish_basic(k)
        || in_portuguese_basic(k)))
}

/// `c` belongs to the default extension table or, with shift tables, to one of
/// the national extension tables: it is sent as an escape and a character.
pub open spec fn is_extended(c: char, shift_tables: bool) -> bool {
    let k = c as u32;
    in_default_extension(k) || (shift_tables && (in_turkish_extension(k) || in_spanish_extension(k)
        || in_portuguese_extension(k)))
}

/// Every character of `msg` can be sent in the GSM alphabet.
pub open spec fn all_basic(msg: Seq<char>, shift_tables: bool) -> bool {
    forall|i: int| 0 <= i < msg.len() ==> is_basic(#[trigger] msg[i], shift_tables)
}

/// The code point of `c` is one of `codes`.
pub open spec fn listed(c: char, codes: Seq<u16>) -> bool {
    exists|k: int| 0 <= k < codes.len() && codes[k] as u32 == c as u32
}

pub(crate) fn basic_char(c: char, shift_tables: bool) -> (r: bool)
    ensures
        r == is_basic(c, shift_tables),
{
    let k = c as u32;
    default_basic(k) || (shift_tables && (turkish_basic(k) || spanish_basic(k) || portuguese_basic(
        k,
    )))
}

pub(crate) fn extended_char(c: char, shift_tables: bool) -> (r: bool)
    ensures
        r == is_extended(c, shift_tables),
{
    let k = c as u32;
    default_extension(k) || (shift_tables && (turkish_extension(k) || spanish_extension(k)
        || portuguese_extension(k)))
}

fn all_basic_chars(message: &String, shift_tables: bool) -> (r: bool)
    ensures
        r == all_basic(message@, shift_tables),
{
    let chars = chars_of(message.as_str());
    let mut i: usize = 0;
    while i < chars.len()
        invariant
            chars@ == message@,
            i <= chars.len(),
            all_basic(chars@.take(i as int), shift_tables),
        decreases chars.len() - i,
    {
        if !basic_char(chars[i], shift_tables) {
            assert(!is_basic(message@[i as int], shift_tables));
            return false;
        }
        assert(chars@.take(i + 1) =~= chars@.take(i as int).push(chars@[i as int]));
        i = i + 1;
    }
    assert(chars@.take(i as int) =~= chars@);
    true
}

/// Whether `code` is one of `codes`.
fn codes_contain(codes: &Vec<u16>, code: u32) -> (r: bool)
    ensures
        r == exists|k: int| 0 <= k < codes@.len() && codes@[k] as u32 == code,
{
    let mut j: usize = 0;
    while j < codes.len()
        invariant
            j <= codes@.len(),
            forall|k: int| 0 <= k < j ==> codes@[k] as u32 != code,
        decreases codes.len() - j,
    {
        if codes[j] as u32 == code {
            return true;
        }
        j = j + 1;
    }
    false
}

/// Tells which characters a GSM message can carry.
#[derive(Clone, Copy, Debug)]
pub struct GsmValidator {}

impl GsmValidator {
    pub fn new() -> GsmValidator {
        GsmValidator {  }
    }

    /// Whether `code` is an element of `array`.
    pub fn exists_in_array(&self, code: u16, array: Vec<u16>) -> (r: bool)
        ensures
            r == array@.contains(code),
    {
        let r = codes_contain(&array, code as u32);
        proof {
            if r {
                let k = choose|k: int| 0 <= k < array@.len() && array@[k] as u32 == code as u32;
                assert(array@[k] == code);
            }
        }
        r
    }

    /// Whether `character` is in the default alphabet.
    pub fn validate_character(self, character: char) -> (r: bool)
        ensures
            r == is_basic(character, false),
    {
        basic_char(character, false)
    }

    /// Whether `character` is in the default alphabet or a national one.
    pub fn validate_character_with_shift_table(self, character: char) -> (r: bool)
        ensures
            r == is_basic(character, true),
    {
        basic_char(character, true)
    }

    /// Whether the code point of every character of `message` is in `char_codes`.
    pub fn validate_message_in_char_codes_list(&self, message: String, char_codes: Vec<u16>) -> (r:
        bool)
        ensures
            r == forall|i: int| 0 <= i < message@.len() ==> listed(#[trigger] message@[i], char_codes@),
    {
        let chars = chars_of(message.as_str());
        let mut i: usize = 0;
        while i < chars.len()
            invariant
                chars@ == message@,
                i <= chars.len(),
                forall|j: int| 0 <= j < i ==> listed(#[trigger] message@[j], char_codes@),
            decreases chars.len() - i,
        {
            if !codes_contain(&char_codes, chars[i] as u32) {
                assert(!listed(message@[i as int], char_codes@));
                return false;
            }
            i = i + 1;
        }
        true
    }

    /// Whether every character of `message` is in the default alphabet.
    pub fn validate_message(self, message: String) -> (r: bool)
        ensures
            r == all_basic(message@, false),
    {
        all_basic_chars(&message, false)
    }

    /// Whether every character of `message` is in the default alphabet or in
    /// one of the national ones; the alphabets may mix within the message.
    pub fn validate_message_with_shift_table(self, message: String) -> (r: bool)
        ensures
            r == all_basic(message@, true),
    {
        all_basic_chars(&message, true)
    }

    /// Whether `character` is in the default extension table.
    pub fn validate_extended_character(self, character: char) -> (r: bool)
        ensures
            r == is_extended(character, false),
    {
        extended_char(character, false)
    }

    /// Whether `character` is in the default extension table or a national one.
    pub fn validate_extended_character_with_shift_table(self, character: char) -> (r: bool)
        ensures
            r == is_extended(character, true),
    {
        extended_char(character, true)
    }
}

} // verus!
