//! A byte-level view of a subword vocabulary: the bytes that each token of
//! a pretrained vocabulary stands for.
//!
//! Vocabularies write bytes in one of two ways. A byte-level vocabulary
//! writes every byte as one printable character. A vocabulary with byte
//! fallback writes text as it is, with a stand-in for the space, and has a
//! token `<0xHH>` for each single byte.

use vstd::prelude::*;
use vstd::pervasive::unreached;

use vstd::utf8::encode_utf8;
use std::collections::HashMap;
use rustc_hash::FxBuildHasher;
use crate::text::str_eq;

verus! {

/// The hasher of the character map. It is a type of the crate `rustc_hash`.
#[verifier::external_type_specification]
#[verifier::external_body]
pub struct ExFxBuildHasher(FxBuildHasher);

/// The map from the characters of a byte-level vocabulary to bytes.
pub type CharMap = HashMap<char, u8, FxBuildHasher>;

/// Whether byte-level vocabularies write the character `c` as itself.
pub open spec fn self_mapped(c: char) -> bool {
    ||| '!' <= c <= '~'
    ||| '\u{00A1}' <= c <= '\u{00AC}'
    ||| '\u{00AE}' <= c <= '\u{00FF}'
}

/// Tells whether `c` is one of the printable characters that a byte-level
/// vocabulary uses unchanged for the byte of the same number.
pub fn is_self_mapped(c: char) -> (res: bool)
    ensures
        res == self_mapped(c),
{
    ('!' <= c && c <= '~') || ('\u{00A1}' <= c && c <= '\u{00AC}') || ('\u{00AE}' <= c && c
        <= '\u{00FF}')
}

/// The number of bytes below `b` that are not written as themselves.
pub open spec fn gap_rank(b: int) -> int
    decreases b,
{
    if b <= 0 {
        0
    } else if self_mapped((b - 1) as char) {
        gap_rank(b - 1)
    } else {
        gap_rank(b - 1) + 1
    }
}

/// The character that a byte-level vocabulary writes for the byte `b`: the
/// character of the same number where that one is printable, else the next
/// unused character from number 256 on.
pub open spec fn byte_char(b: u8) -> char {
    if self_mapped(b as char) {
        b as char
    } else {
        (0x100 + gap_rank(b as int)) as char
    }
}

/// The map from characters back to bytes, for the bytes below `n`.
pub open spec fn char_map(n: int) -> Map<char, u8>
    decreases n,
{
    if n <= 0 {
        Map::empty()
    } else {
        char_map(n - 1).insert(byte_char((n - 1) as u8), (n - 1) as u8)
    }
}

/// The rank of a byte is at most its number.
pub proof fn lemma_gap_rank_bound(b: int)
    requires
        0 <= b,
    ensures
        0 <= gap_rank(b) <= b,
    decreases b,
{
    if b > 0 {
        lemma_gap_rank_bound(b - 1);
    }
}

/// The rank does not fall as the byte grows.
pub proof fn lemma_gap_rank_grows(a: int, b: int)
    requires
        0 <= a <= b,
    ensures
        gap_rank(a) <= gap_rank(b),
    decreases b,
{
    if a < b {
        lemma_gap_rank_grows(a, b - 1);
    }
}

/// Two bytes have two characters.
pub proof fn lemma_byte_char_differs(a: u8, b: u8)
    requires
        a < b,
    ensures
        byte_char(a) != byte_char(b),
{
    lemma_gap_rank_bound(a as int);
    lemma_gap_rank_bound(b as int);
    if !self_mapped(a as char) && !self_mapped(b as char) {
        lemma_gap_rank_grows(a + 1, b as int);
    }
}

/// The map for the bytes below `n` takes the character of each of them
/// back to the byte.
pub proof fn lemma_char_map_inverts(n: int, b: u8)
    requires
        b < n <= 256,
    ensures
        char_map(n).contains_key(byte_char(b)),
        char_map(n)[byte_char(b)] == b,
    decreases n,
{
    if b < n - 1 {
        lemma_char_map_inverts(n - 1, b);
        lemma_byte_char_differs(b, (n - 1) as u8);
    }
}

/// Calls `char::from_u32` of std. Trusted: the result is the character with
/// the number `v` where `v` is the number of a character, else `None`.
#[verifier::external_body]
fn char_from_u32(v: u32) -> (res: Option<char>)
    ensures
        res == if v <= 0xD7FF || (0xE000 <= v && v <= 0x10FFFF) {
            Some(v as char)
        } else {
            None
        },
{
    char::from_u32(v)
}

/// Makes an empty map with the hasher of `rustc_hash`. Trusted: the map
/// holds nothing.
#[verifier::external_body]
fn char_map_new() -> (res: CharMap)
    ensures
        res@ == char_map(0),
{
    HashMap::default()
}

/// Calls `HashMap::insert` on a map with the hasher of `rustc_hash`.
/// Trusted: afterwards the map holds `value` under `key`, and under every
/// other key what it held.
#[verifier::external_body]
fn char_map_insert(map: &mut CharMap, key: char, value: u8)
    ensures
        final(map)@ == old(map)@.insert(key, value),
{
    map.insert(key, value);
}

/// Calls `HashMap::get` on a map with the hasher of `rustc_hash`. Trusted:
/// the result is what the map holds under `key`, if anything.
#[verifier::external_body]
fn char_map_get(map: &CharMap, key: char) -> (res: Option<u8>)
    ensures
        res == if map@.contains_key(key) {
            Some(map@[key])
        } else {
            None
        },
{
    map.get(&key).copied()
}

/// Builds the map from the characters of a byte-level vocabulary back to
/// the bytes they stand for.
pub fn build_char_map() -> (res: CharMap)
    ensures
        res@ == char_map(256),
{
    let mut res = char_map_new();
    let mut k: u32 = 0x100;
    let mut byte: u8 = 0;
    let mut n: u16 = 0;
    while n < 256
        invariant
            n <= 256,
            byte as int == if n < 256 { n as int } else { 255 },
            k == 0x100 + gap_rank(n as int),
            res@ == char_map(n as int),
        decreases 256 - n,
    {
        proof {
            lemma_gap_rank_bound(n as int);
        }
        let c = byte as char;
        if is_self_mapped(c) {
            char_map_insert(&mut res, c, byte);
        } else {
            match char_from_u32(k) {
                Some(stand_in) => {
                    char_map_insert(&mut res, stand_in, byte);
                },
                None => {},
            }
            k += 1;
        }
        if byte < 255 {
            byte += 1;
        }
        n += 1;
    }
    res
}

/// What the description of a decoder says of one of its steps: its type,
/// what it puts in place, and the string it looks for.
#[derive(Debug)]
pub struct DecoderStep {
    pub kind: Option<String>,
    pub content: Option<String>,
    pub pattern: Option<String>,
}

/// What the description of a decoder says: its type and, where it has a
/// list of them, its steps.
#[derive(Debug)]
pub struct DecoderInfo {
    pub kind: Option<String>,
    pub steps: Option<Vec<DecoderStep>>,
}

/// How a vocabulary writes bytes.
#[derive(Clone, Copy, Debug, PartialEq, Eq, Structural)]
pub struct Encoding {
    /// Every byte is written as one printable character.
    pub is_byte_level: bool,
    /// Text is written as it is, and single bytes as `<0xHH>`.
    pub is_byte_fallback: bool,
    /// The character that stands for a space.
    pub space_ch: char,
}

/// The text of an optional string.
pub open spec fn text_of(s: Option<String>) -> Option<Seq<char>> {
    match s {
        Some(s) => Some(s@),
        None => None,
    }
}

/// The step replaces a string of one character by a space.
pub open spec fn is_space_step(step: DecoderStep) -> bool {
    &&& text_of(step.kind) == Some("Replace"@)
    &&& text_of(step.content) == Some(" "@)
    &&& step.pattern matches Some(p)
    &&& p@.len() == 1
}

/// The encoding after the steps of a sequence, taken from the left: a
/// fallback step switches the fallback on; otherwise a step that replaces
/// one character by a space makes that character the stand-in for the space.
pub open spec fn steps_encoding(steps: Seq<DecoderStep>) -> Encoding
    decreases steps.len(),
{
    if steps.len() == 0 {
        Encoding { is_byte_level: false, is_byte_fallback: false, space_ch: ' ' }
    } else {
        let front = steps_encoding(steps.drop_last());
        let step = steps.last();
        if text_of(step.kind) == Some("ByteFallback"@) {
            Encoding {
                is_byte_level: front.is_byte_level,
                is_byte_fallback: true,
                space_ch: front.space_ch,
            }
        } else if is_space_step(step) {
            Encoding {
                is_byte_level: front.is_byte_level,
                is_byte_fallback: front.is_byte_fallback,
                space_ch: step.pattern->Some_0@[0],
            }
        } else {
            front
        }
    }
}

/// The encoding that the description of a decoder stands for. Without a
/// decoder, and with one of another type, neither way of writing bytes is
/// recognised.
pub open spec fn decoder_encoding(decoder: Option<DecoderInfo>) -> Encoding {
    match decoder {
        None => Encoding { is_byte_level: false, is_byte_fallback: false, space_ch: ' ' },
        Some(info) => {
            if text_of(info.kind) == Some("ByteLevel"@) {
                Encoding { is_byte_level: true, is_byte_fallback: false, space_ch: ' ' }
            } else if text_of(info.kind) == Some("Sequence"@) && info.steps is Some {
                steps_encoding(info.steps->Some_0@)
            } else {
                Encoding { is_byte_level: false, is_byte_fallback: false, space_ch: ' ' }
            }
        },
    }
}

/// Tells whether an optional string holds the text `expected`.
fn holds(s: &Option<String>, expected: &str) -> (res: bool)
    ensures
        res == (text_of(*s) == Some(expected@)),
{
    match s {
        Some(s) => str_eq(s.as_str(), expected),
        None => false,
    }
}

/// Reads from the description of a decoder how the vocabulary writes bytes.
pub fn read_encoding(decoder: &Option<DecoderInfo>) -> (res: Encoding)
    ensures
        res == decoder_encoding(*decoder),
{
    let mut res = Encoding { is_byte_level: false, is_byte_fallback: false, space_ch: ' ' };
    match decoder {
        None => {},
        Some(info) => {
            if holds(&info.kind, "ByteLevel") {
                res.is_byte_level = true;
            } else if holds(&info.kind, "Sequence") {
                match &info.steps {
                    None => {},
                    Some(steps) => {
                        let mut i: usize = 0;
                        while i < steps.len()
                            invariant
                                i <= steps.len(),
                                res == steps_encoding(steps@.take(i as int)),
                            decreases steps.len() - i,
                        {
                            proof {
                                assert(steps@.take(i + 1).drop_last() =~= steps@.take(i as int));
                            }
                            let step = &steps[i];
                            if holds(&step.kind, "ByteFallback") {
                                res.is_byte_fallback = true;
                            } else if holds(&step.kind, "Replace") && holds(&step.content, " ") {
                                match &step.pattern {
                                    Some(p) => {
                                        if p.as_str().unicode_len() == 1 {
                                            res.space_ch = p.as_str().get_char(0);
                                        }
                                    },
                                    None => {},
                                }
                            }
                            i += 1;
                        }
                        assert(steps@.take(i as int) =~= steps@);
                    },
                }
            }
        },
    }
    res
}

/// `text` with every `from` replaced by `to`.
pub open spec fn replaced(text: Seq<char>, from: char, to: Seq<char>) -> Seq<char>
    decreases text.len(),
{
    if text.len() == 0 {
        Seq::empty()
    } else if text.last() == from {
        replaced(text.drop_last(), from, to) + to
    } else {
        replaced(text.drop_last(), from, to).push(text.last())
    }
}

/// Calls `str::replace` of std with a character as the pattern. Trusted:
/// the result is `text` with every `from` replaced by `to`, and nothing else
/// changed.
#[verifier::external_body]
fn replace_char(text: &str, from: char, to: &str) -> (res: String)
    ensures
        res@ == replaced(text@, from, to@),
{
    text.replace(from, to)
}

/// The value of a hexadecimal digit in ASCII.
pub open spec fn hex_digit(b: u8) -> Option<u8> {
    if 0x30 <= b <= 0x39 {
        Some((b - 0x30) as u8)
    } else if 0x41 <= b <= 0x46 {
        Some((b - 0x41 + 10) as u8)
    } else if 0x61 <= b <= 0x66 {
        Some((b - 0x61 + 10) as u8)
    } else {
        None
    }
}

/// The number that two bytes of ASCII stand for in base 16: two digits, or
/// a plus sign and one digit.
pub open spec fn hex_pair(hi: u8, lo: u8) -> Option<u8> {
    match hex_digit(lo) {
        None => None,
        Some(l) => {
            if hi == 0x2b {
                Some(l)
            } else {
                match hex_digit(hi) {
                    None => None,
                    Some(h) => Some((16 * h + l) as u8),
                }
            }
        },
    }
}

/// Reads a hexadecimal digit.
fn read_hex_digit(b: u8) -> (res: Option<u8>)
    ensures
        res == hex_digit(b),
{
    if 0x30 <= b && b <= 0x39 {
        Some(b - 0x30)
    } else if 0x41 <= b && b <= 0x46 {
        Some(b - 0x41 + 10)
    } else if 0x61 <= b && b <= 0x66 {
        Some(b - 0x61 + 10)
    } else {
        None
    }
}

/// Reads two bytes as a number in base 16.
fn read_hex_pair(hi: u8, lo: u8) -> (res: Option<u8>)
    ensures
        res == hex_pair(hi, lo),
{
    match read_hex_digit(lo) {
        None => None,
        Some(l) => {
            if hi == 0x2b {
                Some(l)
            } else {
                match read_hex_digit(hi) {
                    None => None,
                    Some(h) => Some(16 * h + l),
                }
            }
        },
    }
}

/// The bytes are a name of the form `<0x..>`, six bytes long.
pub open spec fn is_byte_escape(bytes: Seq<u8>) -> bool {
    &&& bytes.len() == 6
    &&& bytes[0] == 0x3c
    &&& bytes[1] == 0x30
    &&& bytes[2] == 0x78
    &&& bytes[5] == 0x3e
}

/// The bytes start with `<0x`.
pub open spec fn starts_escape(bytes: Seq<u8>) -> bool {
    &&& bytes.len() >= 3
    &&& bytes[0] == 0x3c
    &&& bytes[1] == 0x30
    &&& bytes[2] == 0x78
}

/// A name that a vocabulary with byte fallback can hold: of the form
/// `<0x..>` with a number in base 16 inside, or not starting with `<0x`.
pub open spec fn fallback_name_ok(name: Seq<char>) -> bool {
    let bytes = encode_utf8(name);
    if is_byte_escape(bytes) {
        hex_pair(bytes[3], bytes[4]) is Some
    } else {
        !starts_escape(bytes)
    }
}

/// The bytes of a token of a vocabulary with byte fallback: the one byte of
/// a name of the form `<0xHH>`, else the name with the stand-in for the
/// space replaced by a space.
pub open spec fn fallback_bytes(name: Seq<char>, space_ch: char) -> Seq<u8> {
    let bytes = encode_utf8(name);
    if is_byte_escape(bytes) {
        seq![hex_pair(bytes[3], bytes[4])->Some_0]
    } else {
        encode_utf8(replaced(name, space_ch, seq![' ']))
    }
}

/// The bytes of a token of a byte-level vocabulary: the byte of each of
/// its characters, unless one of them stands for no byte.
pub open spec fn level_bytes(name: Seq<char>) -> Option<Seq<u8>> {
    if forall|i: int| 0 <= i < name.len() ==> char_map(256).contains_key(#[trigger] name[i]) {
        Some(Seq::new(name.len(), |i: int| char_map(256)[name[i]]))
    } else {
        None
    }
}

/// Computes the bytes of a token of a vocabulary with byte fallback.
pub fn fallback_decode(name: &str, space_ch: char) -> (res: Vec<u8>)
    requires
        fallback_name_ok(name@),
    ensures
        res@ == fallback_bytes(name@, space_ch),
{
    let bytes = name.as_bytes();
    if bytes.len() == 6 && bytes[0] == 0x3c && bytes[1] == 0x30 && bytes[2] == 0x78 && bytes[5]
        == 0x3e {
        match read_hex_pair(bytes[3], bytes[4]) {
            Some(b) => {
                let mut res: Vec<u8> = Vec::new();
                res.push(b);
                res
            },
            None => unreached(),
        }
    } else {
        proof {
            reveal_strlit(" ");
            assert(" "@ =~= seq![' ']);
        }
        replace_char(name, space_ch, " ").as_str().as_bytes_vec()
    }
}

/// Computes the bytes of a token of a byte-level vocabulary, if each of
/// its characters stands for a byte.
pub fn level_decode(map: &CharMap, name: &str) -> (res: Option<Vec<u8>>)
    requires
        map@ == char_map(256),
    ensures
        match res {
            Some(bytes) => level_bytes(name@) == Some(bytes@),
            None => level_bytes(name@) is None,
        },
{
    let n = name.unicode_len();
    let mut res: Vec<u8> = Vec::new();
    let mut i: usize = 0;
    while i < n
        invariant
            i <= n,
            n == name@.len(),
            map@ == char_map(256),
            res@.len() == i,
            forall|k: int|
                0 <= k < i ==> char_map(256).contains_key(#[trigger] name@[k]) && res@[k]
                    == char_map(256)[name@[k]],
        decreases n - i,
    {
        match char_map_get(map, name.get_char(i)) {
            Some(b) => {
                res.push(b);
            },
            None => {
                return None;
            },
        }
        i += 1;
    }
    Some(res)
}

/// The character of a digit.
pub open spec fn digit_char(d: int) -> char {
    (0x30 + d) as char
}

/// The decimal digits of a number.
pub open spec fn decimal(n: nat) -> Seq<char>
    decreases n,
{
    if n < 10 {
        seq![digit_char(n as int)]
    } else {
        decimal(n / 10).push(digit_char((n % 10) as int))
    }
}

/// The name of the token that fills the place `idx` of a vocabulary.
pub open spec fn missing_name(idx: nat) -> Seq<char> {
    "<AddedToken_"@ + decimal(idx) + ">"@
}

/// The special tokens after the places from `from` up to `to` have been
/// filled: one more entry for each place, in the order of the places.
pub open spec fn with_missing(special: Seq<(Seq<char>, u32)>, from: nat, to: nat) -> Seq<
    (Seq<char>, u32),
>
    decreases to,
{
    if to <= from {
        special
    } else {
        with_missing(special, from, (to - 1) as nat).push(
            (missing_name((to - 1) as nat), (to - 1) as u32),
        )
    }
}

/// The text of a digit.
fn digit_text(d: usize) -> (res: &'static str)
    requires
        d < 10,
    ensures
        res@ == seq![digit_char(d as int)],
{
    proof {
        reveal_strlit("0");
        reveal_strlit("1");
        reveal_strlit("2");
        reveal_strlit("3");
        reveal_strlit("4");
        reveal_strlit("5");
        reveal_strlit("6");
        reveal_strlit("7");
        reveal_strlit("8");
        reveal_strlit("9");
    }
    let res = if d == 0 {
        "0"
    } else if d == 1 {
        "1"
    } else if d == 2 {
        "2"
    } else if d == 3 {
        "3"
    } else if d == 4 {
        "4"
    } else if d == 5 {
        "5"
    } else if d == 6 {
        "6"
    } else if d == 7 {
        "7"
    } else if d == 8 {
        "8"
    } else {
        "9"
    };
    res
}

/// Writes the decimal digits of `n` at the end of `text`.
fn push_decimal(text: &mut String, n: usize)
    ensures
        final(text)@ == old(text)@ + decimal(n as nat),
    decreases n,
{
    if n >= 10 {
        push_decimal(text, n / 10);
    }
    text.append(digit_text(n % 10));
}

/// A token that was added to a vocabulary.
#[derive(Debug)]
pub struct AddedToken {
    pub id: u32,
    pub content: String,
    pub special: bool,
}

/// What a pretrained tokenizer says of its vocabulary.
#[derive(Debug)]
pub struct Vocabulary {
    /// The description of the decoder, if there is one.
    pub decoder: Option<DecoderInfo>,
    /// The number of tokens, added ones included.
    pub vocab_size: u32,
    /// The added tokens, in the order in which they are to be applied.
    pub added: Vec<AddedToken>,
    /// The name of each token by its number, where it has one.
    pub names: Vec<Option<String>>,
}

/// Why a vocabulary cannot be viewed as bytes.
#[derive(Clone, Copy, Debug, PartialEq, Eq, Structural)]
pub enum TokenizerError {
    /// The decoder is neither byte-level nor a sequence with byte fallback.
    UnknownDecoder,
}

/// The size of a vocabulary and its end-of-sequence token.
#[derive(Clone, Copy, Debug, PartialEq, Eq, Structural)]
pub struct TokRxInfo {
    pub vocab_size: u32,
    pub tok_eos: u32,
}

/// The name is one of those that mark the end of a sequence.
pub open spec fn is_eos_name(name: Seq<char>) -> bool {
    name == "</s>"@ || name == "<|endoftext|>"@ || name == "<|end_of_text|>"@
}

/// What the added tokens have settled: the end-of-sequence token, the
/// special tokens with their names in the order in which they were added,
/// and the bytes of the tokens that are not special.
pub ghost struct Settled {
    pub eos: u32,
    pub special: Seq<(Seq<char>, u32)>,
    pub bytes: Seq<Seq<u8>>,
}

/// What is settled after one more added token. A special token is recorded
/// by its name, and becomes the end-of-sequence token where its name marks
/// one; another token, if it lies within the vocabulary, gets the bytes of
/// its content.
pub open spec fn settle(st: Settled, token: AddedToken) -> Settled {
    if token.special {
        Settled {
            eos: if is_eos_name(token.content@) {
                token.id
            } else {
                st.eos
            },
            special: st.special.push((token.content@, token.id)),
            bytes: st.bytes,
        }
    } else {
        Settled {
            eos: st.eos,
            special: st.special,
            bytes: if token.id < st.bytes.len() {
                st.bytes.update(token.id as int, encode_utf8(token.content@))
            } else {
                st.bytes
            },
        }
    }
}

/// What the added tokens settle, taken from the left, for a vocabulary of
/// `size` tokens.
pub open spec fn settled(added: Seq<AddedToken>, size: nat) -> Settled
    decreases added.len(),
{
    if added.len() == 0 {
        Settled { eos: 0, special: Seq::empty(), bytes: Seq::new(size, |i: int| Seq::empty()) }
    } else {
        settle(settled(added.drop_last(), size), added.last())
    }
}

/// Some added token has the number `id`.
pub open spec fn is_added(added: Seq<AddedToken>, id: int) -> bool {
    exists|j: int| 0 <= j < added.len() && (#[trigger] added[j]).id == id
}

/// The bytes of the token `id`: what the added tokens have settled where
/// the token is an added one or has no name, else the bytes that its name
/// stands for in the encoding. A name of a byte-level vocabulary that holds
/// a character for no byte is passed over.
pub open spec fn token_bytes_of(vocab: Vocabulary, enc: Encoding, id: int) -> Seq<u8> {
    let st = settled(vocab.added@, vocab.vocab_size as nat);
    if is_added(vocab.added@, id) {
        st.bytes[id]
    } else {
        match vocab.names@[id] {
            None => st.bytes[id],
            Some(name) => {
                if enc.is_byte_fallback {
                    fallback_bytes(name@, enc.space_ch)
                } else {
                    match level_bytes(name@) {
                        Some(bytes) => bytes,
                        None => st.bytes[id],
                    }
                }
            },
        }
    }
}

/// What a vocabulary has to meet for its tokens to be given bytes: a name
/// slot for each token; added tokens that are not special within the
/// vocabulary; and, with byte fallback, names of the form that fallback
/// allows.
pub open spec fn vocabulary_ok(vocab: Vocabulary) -> bool {
    let enc = decoder_encoding(vocab.decoder);
    &&& vocab.names@.len() == vocab.vocab_size
    &&& forall|j: int|
        0 <= j < vocab.added@.len() && !(#[trigger] vocab.added@[j]).special ==> vocab.added@[j].id
            < vocab.vocab_size
    &&& enc.is_byte_fallback ==> forall|id: int|
        0 <= id < vocab.vocab_size && !is_added(vocab.added@, id) ==> (
        #[trigger] vocab.names@[id] matches Some(name) ==> fallback_name_ok(name@))
}

/// Tells whether a name is one that a vocabulary with byte fallback can
/// hold.
pub fn fallback_name_fits(name: &str) -> (res: bool)
    ensures
        res == fallback_name_ok(name@),
{
    let bytes = name.as_bytes();
    if bytes.len() == 6 && bytes[0] == 0x3c && bytes[1] == 0x30 && bytes[2] == 0x78 && bytes[5]
        == 0x3e {
        read_hex_pair(bytes[3], bytes[4]).is_some()
    } else {
        !(bytes.len() >= 3 && bytes[0] == 0x3c && bytes[1] == 0x30 && bytes[2] == 0x78)
    }
}

/// Marks the numbers below `size` that added tokens have.
fn added_mask(added: &Vec<AddedToken>, size: usize) -> (mask: Vec<bool>)
    ensures
        mask@.len() == size,
        forall|id: int| 0 <= id < size ==> #[trigger] mask@[id] == is_added(added@, id),
{
    let mut mask: Vec<bool> = Vec::new();
    let mut n: usize = 0;
    while n < size
        invariant
            n <= size,
            mask@.len() == n,
            forall|i: int| 0 <= i < n ==> !(#[trigger] mask@[i]),
        decreases size - n,
    {
        mask.push(false);
        n += 1;
    }
    let mut j: usize = 0;
    while j < added.len()
        invariant
            j <= added.len(),
            mask@.len() == size,
            forall|id: int|
                0 <= id < size ==> #[trigger] mask@[id] == is_added(added@.take(j as int), id),
        decreases added.len() - j,
    {
        let ghost before = added@.take(j as int);
        let ghost after = added@.take(j + 1);
        let id = added[j].id as usize;
        if id < size {
            mask.set(id, true);
        }
        proof {
            assert forall|k: int| 0 <= k < size implies #[trigger] mask@[k] == is_added(
                after,
                k,
            ) by {
                if is_added(before, k) {
                    let w = choose|w: int| 0 <= w < before.len() && (#[trigger] before[w]).id == k;
                    assert(after[w].id == k);
                }
                if k == id {
                    assert(after[j as int].id == k);
                }
                if is_added(after, k) && k != id {
                    let w = choose|w: int| 0 <= w < after.len() && (#[trigger] after[w]).id == k;
                    assert(before[w].id == k);
                }
            }
        }
        j += 1;
    }
    proof {
        assert(added@.take(j as int) =~= added@);
    }
    mask
}

/// Tells whether a vocabulary meets what its tokens need to be given
/// bytes.
pub fn vocabulary_fits(vocab: &Vocabulary) -> (res: bool)
    ensures
        res == vocabulary_ok(*vocab),
{
    let size = vocab.vocab_size as usize;
    if vocab.names.len() != size {
        return false;
    }
    let mut j: usize = 0;
    while j < vocab.added.len()
        invariant
            j <= vocab.added.len(),
            forall|k: int|
                0 <= k < j && !(#[trigger] vocab.added@[k]).special ==> vocab.added@[k].id
                    < vocab.vocab_size,
        decreases vocab.added.len() - j,
    {
        if !vocab.added[j].special && vocab.added[j].id >= vocab.vocab_size {
            return false;
        }
        j += 1;
    }
    let enc = read_encoding(&vocab.decoder);
    if !enc.is_byte_fallback {
        return true;
    }
    let mask = added_mask(&vocab.added, size);
    let mut id: usize = 0;
    while id < size
        invariant
            id <= size,
            size == vocab.vocab_size,
            vocab.names@.len() == size,
            decoder_encoding(vocab.decoder).is_byte_fallback,
            forall|k: int|
                0 <= k < vocab.added@.len() && !(#[trigger] vocab.added@[k]).special
                    ==> vocab.added@[k].id < vocab.vocab_size,
            mask@.len() == size,
            forall|k: int| 0 <= k < size ==> #[trigger] mask@[k] == is_added(vocab.added@, k),
            forall|k: int|
                0 <= k < id && !is_added(vocab.added@, k) ==> (
                #[trigger] vocab.names@[k] matches Some(name) ==> fallback_name_ok(name@)),
        decreases size - id,
    {
        if !mask[id] {
            match &vocab.names[id] {
                Some(name) => {
                    if !fallback_name_fits(name.as_str()) {
                        return false;
                    }
                },
                None => {},
            }
        }
        id += 1;
    }
    true
}

/// The special tokens of a list, with their names as sequences of
/// characters. A later entry stands for its name before an earlier one.
pub open spec fn special_entries(list: Seq<(String, u32)>) -> Seq<(Seq<char>, u32)> {
    Seq::new(list.len(), |i: int| (list[i].0@, list[i].1))
}

/// The bytes of every token of a vocabulary, with its special tokens.
pub struct ByteTokenizer {
    pub hf_model: String,
    pub eos_token: u32,
    pub vocab_size: u32,
    pub token_bytes: Vec<Vec<u8>>,
    /// The special tokens in the order in which they were recorded.
    pub special: Vec<(String, u32)>,
}

impl ByteTokenizer {
    /// The bytes of each token.
    pub open spec fn bytes(&self) -> Seq<Seq<u8>> {
        Seq::new(self.token_bytes@.len(), |i: int| self.token_bytes@[i]@)
    }

    /// Works out the bytes of every token of a vocabulary. A vocabulary
    /// whose decoder is neither byte-level nor a sequence with byte fallback
    /// is refused.
    pub fn from_tokenizer(vocab: Vocabulary) -> (res: Result<ByteTokenizer, TokenizerError>)
        requires
            decoder_encoding(vocab.decoder).is_byte_fallback || decoder_encoding(
                vocab.decoder,
            ).is_byte_level ==> vocabulary_ok(vocab),
        ensures
            match res {
                Ok(t) => {
                    let enc = decoder_encoding(vocab.decoder);
                    let st = settled(vocab.added@, vocab.vocab_size as nat);
                    &&& enc.is_byte_fallback || enc.is_byte_level
                    &&& t.hf_model@ == "foobar"@
                    &&& t.vocab_size == vocab.vocab_size
                    &&& t.eos_token == st.eos
                    &&& special_entries(t.special@) == st.special
                    &&& t.bytes().len() == vocab.vocab_size
                    &&& forall|id: int|
                        0 <= id < vocab.vocab_size ==> #[trigger] t.bytes()[id] == token_bytes_of(
                            vocab,
                            enc,
                            id,
                        )
                },
                Err(e) => {
                    let enc = decoder_encoding(vocab.decoder);
                    !enc.is_byte_fallback && !enc.is_byte_level
                },
            },
    {
        let enc = read_encoding(&vocab.decoder);
        if !enc.is_byte_fallback && !enc.is_byte_level {
            return Err(TokenizerError::UnknownDecoder);
        }
        let size = vocab.vocab_size as usize;
        let mut token_bytes: Vec<Vec<u8>> = Vec::new();
        let mut n: usize = 0;
        while n < size
            invariant
                n <= size,
                token_bytes@.len() == n,
                forall|i: int| 0 <= i < n ==> (#[trigger] token_bytes@[i])@ == Seq::<u8>::empty(),
            decreases size - n,
        {
            token_bytes.push(Vec::new());
            n += 1;
        }
        let mut res = ByteTokenizer {
            hf_model: String::from_str("foobar"),
            eos_token: 0,
            vocab_size: vocab.vocab_size,
            special: Vec::new(),
            token_bytes,
        };
        let mut j: usize = 0;
        while j < vocab.added.len()
            invariant
                j <= vocab.added.len(),
                size == vocab.vocab_size,
                vocabulary_ok(vocab),
                res.vocab_size == vocab.vocab_size,
                res.hf_model@ == "foobar"@,
                res.bytes().len() == size,
                res.eos_token == settled(vocab.added@.take(j as int), size as nat).eos,
                special_entries(res.special@) == settled(
                    vocab.added@.take(j as int),
                    size as nat,
                ).special,
                res.bytes() == settled(vocab.added@.take(j as int), size as nat).bytes,
            decreases vocab.added.len() - j,
        {
            let token = &vocab.added[j];
            let ghost before = vocab.added@.take(j as int);
            let ghost after = vocab.added@.take(j + 1);
            proof {
                assert(after.drop_last() =~= before);
                assert(after.last() == vocab.added@[j as int]);
            }
            if token.special {
                if str_eq(token.content.as_str(), "</s>") || str_eq(
                    token.content.as_str(),
                    "<|endoftext|>",
                ) || str_eq(token.content.as_str(), "<|end_of_text|>") {
                    res.eos_token = token.id;
                }
                let ghost listed = special_entries(res.special@);
                res.special.push((token.content.clone(), token.id));
                assert(special_entries(res.special@) =~= listed.push((token.content@, token.id)));
            } else {
                let bytes = token.content.as_str().as_bytes_vec();
                res.token_bytes.set(token.id as usize, bytes);
            }
            j += 1;
        }
        proof {
            assert(vocab.added@.take(j as int) =~= vocab.added@);
        }
        let mask = added_mask(&vocab.added, size);
        let char_map = build_char_map();
        let ghost st = settled(vocab.added@, size as nat);
        let mut id: usize = 0;
        while id < size
            invariant
                id <= size,
                size == vocab.vocab_size,
                vocabulary_ok(vocab),
                enc == decoder_encoding(vocab.decoder),
                enc.is_byte_fallback || enc.is_byte_level,
                char_map@ == self::char_map(256),
                st == settled(vocab.added@, size as nat),
                mask@.len() == size,
                forall|k: int| 0 <= k < size ==> #[trigger] mask@[k] == is_added(vocab.added@, k),
                res.vocab_size == vocab.vocab_size,
                res.hf_model@ == "foobar"@,
                res.eos_token == st.eos,
                special_entries(res.special@) == st.special,
                res.bytes().len() == size,
                forall|k: int|
                    0 <= k < id ==> #[trigger] res.bytes()[k] == token_bytes_of(vocab, enc, k),
                forall|k: int| id <= k < size ==> #[trigger] res.bytes()[k] == st.bytes[k],
            decreases size - id,
        {
            let ghost old_bytes = res.bytes();
            if !mask[id] {
                match &vocab.names[id] {
                    Some(name) => {
                        if enc.is_byte_fallback {
                            let bytes = fallback_decode(name.as_str(), enc.space_ch);
                            let ghost view = bytes@;
                            res.token_bytes.set(id, bytes);
                            assert(res.bytes() =~= old_bytes.update(id as int, view));
                        } else {
                            match level_decode(&char_map, name.as_str()) {
                                Some(bytes) => {
                                    let ghost view = bytes@;
                                    res.token_bytes.set(id, bytes);
                                    assert(res.bytes() =~= old_bytes.update(id as int, view));
                                },
                                None => {},
                            }
                        }
                    },
                    None => {},
                }
            }
            id += 1;
        }
        Ok(res)
    }

    /// The size of the vocabulary and its end-of-sequence token.
    pub fn tokrx_info(&self) -> (res: TokRxInfo)
        ensures
            res == (TokRxInfo { vocab_size: self.vocab_size, tok_eos: self.eos_token }),
    {
        TokRxInfo { vocab_size: self.vocab_size, tok_eos: self.eos_token }
    }

    /// A copy of the bytes of each token.
    pub fn token_bytes(&self) -> (res: Vec<Vec<u8>>)
        ensures
            res@.len() == self.bytes().len(),
            forall|i: int| 0 <= i < res@.len() ==> (#[trigger] res@[i])@ == self.bytes()[i],
    {
        let mut res: Vec<Vec<u8>> = Vec::new();
        let mut i: usize = 0;
        while i < self.token_bytes.len()
            invariant
                i <= self.token_bytes.len(),
                res@.len() == i,
                forall|k: int| 0 <= k < i ==> (#[trigger] res@[k])@ == self.bytes()[k],
            decreases self.token_bytes.len() - i,
        {
            let mut copy: Vec<u8> = Vec::new();
            let src = &self.token_bytes[i];
            let mut k: usize = 0;
            while k < src.len()
                invariant
                    k <= src.len(),
                    copy@ == src@.take(k as int),
                decreases src.len() - k,
            {
                copy.push(src[k]);
                k += 1;
            }
            res.push(copy);
            i += 1;
        }
        res
    }

    /// Fills the vocabulary up to `vocab_size` tokens: each new place gets a
    /// special token named after its number, whose bytes are its name.
    pub fn add_missing_tokens(&mut self, vocab_size: usize)
        requires
            old(self).vocab_size == old(self).token_bytes@.len(),
            vocab_size >= old(self).token_bytes@.len(),
            vocab_size - old(self).token_bytes@.len() <= 200,
            vocab_size <= u32::MAX,
        ensures
            final(self).vocab_size == vocab_size,
            final(self).bytes() == old(self).bytes() + Seq::new(
                (vocab_size - old(self).token_bytes@.len()) as nat,
                |k: int| encode_utf8(missing_name((old(self).token_bytes@.len() + k) as nat)),
            ),
            special_entries(final(self).special@) == with_missing(
                special_entries(old(self).special@),
                old(self).token_bytes@.len() as nat,
                vocab_size as nat,
            ),
            final(self).eos_token == old(self).eos_token,
            final(self).hf_model == old(self).hf_model,
    {
        let ghost start = self.token_bytes@.len();
        while self.token_bytes.len() < vocab_size
            invariant
                start == old(self).token_bytes@.len(),
                start <= self.token_bytes@.len() <= vocab_size,
                vocab_size <= u32::MAX,
                self.vocab_size == self.token_bytes@.len(),
                self.bytes() == old(self).bytes() + Seq::new(
                    (self.token_bytes@.len() - start) as nat,
                    |k: int| encode_utf8(missing_name((start + k) as nat)),
                ),
                special_entries(self.special@) == with_missing(
                    special_entries(old(self).special@),
                    start as nat,
                    self.token_bytes@.len() as nat,
                ),
                self.eos_token == old(self).eos_token,
                self.hf_model == old(self).hf_model,
            decreases vocab_size - self.token_bytes@.len(),
        {
            let idx = self.token_bytes.len();
            let ghost before = self.bytes();
            let mut name = String::from_str("<AddedToken_");
            push_decimal(&mut name, idx);
            name.append(">");
            let bytes = name.as_str().as_bytes_vec();
            self.token_bytes.push(bytes);
            self.vocab_size += 1;
            let ghost listed = special_entries(self.special@);
            self.special.push((name, idx as u32));
            assert(special_entries(self.special@) =~= listed.push(
                (missing_name(idx as nat), idx as u32),
            ));
            proof {
                assert(self.bytes() =~= before.push(encode_utf8(missing_name(idx as nat))));
            }
        }
    }
}

} // verus!
