//! The unlocked achievements as kept in the data file: their numbers as a
//! MessagePack array, written in standard base64.
use vstd::prelude::*;

use crate::achivement::{list_contains, Achivement};

verus! {

/// Where the unlocked achievements are kept.
pub const ACHIVEMENT_FILE_NAME: &'static str = "saves/achivements";

/// Achievements are checked every this many cycles.
pub const CHECK_ACHIVEMENT_INTERVAL_CYCLES: u64 = 10;

/// The character of the standard base64 alphabet for a six-bit value.
pub open spec fn spec_base64_char(v: int) -> char {
    if v < 26 {
        ('A' as int + v) as char
    } else if v < 52 {
        ('a' as int + (v - 26)) as char
    } else if v < 62 {
        ('0' as int + (v - 52)) as char
    } else if v == 62 {
        '+'
    } else {
        '/'
    }
}

/// Standard base64 with padding: each three bytes become four characters,
/// and a last group of one or two bytes is padded with `=`.
pub open spec fn spec_base64(b: Seq<u8>) -> Seq<char>
    decreases b.len(),
{
    if b.len() == 0 {
        Seq::empty()
    } else {
        let x0 = b[0] as int;
        let x1 = if b.len() > 1 { b[1] as int } else { 0 };
        let x2 = if b.len() > 2 { b[2] as int } else { 0 };
        let c0 = spec_base64_char(x0 / 4);
        let c1 = spec_base64_char((x0 % 4) * 16 + x1 / 16);
        let c2 = spec_base64_char((x1 % 16) * 4 + x2 / 64);
        let c3 = spec_base64_char(x2 % 64);
        if b.len() == 1 {
            seq![c0, c1, '=', '=']
        } else if b.len() == 2 {
            seq![c0, c1, c2, '=']
        } else {
            seq![c0, c1, c2, c3] + spec_base64(b.subrange(3, b.len() as int))
        }
    }
}

/// The bytes that `base64`'s standard engine decodes from a text, if it
/// accepts the text.
pub uninterp spec fn base64_decoded(text: Seq<char>) -> Option<Seq<u8>>;

/// `base64::engine::general_purpose::STANDARD.encode`: standard base64 with padding.
#[verifier::external_body]
pub(crate) fn base64_encode(bytes: &Vec<u8>) -> (r: String)
    requires
        bytes.len() <= usize::MAX / 2,
    ensures
        r@ == spec_base64(bytes@),
{
    base64::Engine::encode(&base64::prelude::BASE64_STANDARD, bytes)
}

/// `base64::engine::general_purpose::STANDARD.decode`: the bytes of a base64
/// text, none when the engine refuses it; the text of some bytes' encoding
/// gives those bytes back.
#[verifier::external_body]
pub(crate) fn base64_decode(text: &str) -> (r: Option<Vec<u8>>)
    ensures
        match r {
            Some(v) => base64_decoded(text@) == Some(v@),
            None => base64_decoded(text@) is None,
        },
        r is None ==> forall|b: Seq<u8>| #[trigger] spec_base64(b) != text@,
        r matches Some(v) ==> forall|b: Seq<u8>| #[trigger] spec_base64(b) == text@ ==> v@ == b,
{
    base64::Engine::decode(&base64::prelude::BASE64_STANDARD, text).ok()
}

/// A MessagePack unsigned integer in its shortest form.
pub open spec fn spec_msgpack_uint(v: u16) -> Seq<u8> {
    if v < 128 {
        seq![v as u8]
    } else if v < 256 {
        seq![0xccu8, v as u8]
    } else {
        seq![0xcdu8, (v / 256) as u8, (v % 256) as u8]
    }
}

/// A MessagePack array header in its shortest form.
pub open spec fn spec_msgpack_array_len(n: nat) -> Seq<u8> {
    if n < 16 {
        seq![(0x90 + n) as u8]
    } else if n < 65536 {
        seq![0xdcu8, (n / 256) as u8, (n % 256) as u8]
    } else {
        seq![
            0xddu8,
            (n / 0x100_0000) as u8,
            ((n / 0x1_0000) % 256) as u8,
            ((n / 256) % 256) as u8,
            (n % 256) as u8,
        ]
    }
}

pub open spec fn spec_msgpack_uints(v: Seq<u16>) -> Seq<u8>
    decreases v.len(),
{
    if v.len() == 0 {
        Seq::empty()
    } else {
        spec_msgpack_uints(v.drop_last()) + spec_msgpack_uint(v.last())
    }
}

/// A list of numbers as a MessagePack array.
pub open spec fn spec_msgpack_u16_list(v: Seq<u16>) -> Seq<u8> {
    spec_msgpack_array_len(v.len()) + spec_msgpack_uints(v)
}

/// The numbers that `rmp_serde` reads as a `Vec<u16>` from the bytes, if it
/// accepts them.
pub uninterp spec fn msgpack_u16_list_decoded(bytes: Seq<u8>) -> Option<Seq<u16>>;

/// `rmp_serde::to_vec` on a `Vec<u16>`: the array header and each number in
/// their shortest MessagePack forms. Writing to a vector does not fail.
#[verifier::external_body]
fn msgpack_encode(codes: &Vec<u16>) -> (r: Vec<u8>)
    requires
        codes.len() <= u32::MAX,
    ensures
        r@ == spec_msgpack_u16_list(codes@),
{
    match rmp_serde::to_vec(codes) {
        Ok(bytes) => bytes,
        Err(_) => Vec::new(),
    }
}

/// `rmp_serde::from_slice::<Vec<u16>>`: the numbers that the bytes hold, none
/// when they are no array of such numbers; the encoding of some numbers gives
/// those numbers back.
#[verifier::external_body]
fn msgpack_decode(bytes: &Vec<u8>) -> (r: Option<Vec<u16>>)
    ensures
        match r {
            Some(v) => msgpack_u16_list_decoded(bytes@) == Some(v@),
            None => msgpack_u16_list_decoded(bytes@) is None,
        },
        r is None ==> forall|v: Seq<u16>| v.len() <= u32::MAX ==> #[trigger] spec_msgpack_u16_list(v) != bytes@,
        r matches Some(w) ==> forall|v: Seq<u16>| v.len() <= u32::MAX && #[trigger] spec_msgpack_u16_list(v) == bytes@ ==> w@ == v,
{
    rmp_serde::from_slice::<Vec<u16>>(bytes).ok()
}

/// The numbers of the achievements.
pub open spec fn spec_codes(list: Seq<Achivement>) -> Seq<u16> {
    list.map_values(|a: Achivement| a.spec_code())
}

/// The text of the data file for the unlocked achievements.
pub open spec fn spec_encoded_unlocked(list: Seq<Achivement>) -> Seq<char> {
    spec_base64(spec_msgpack_u16_list(spec_codes(list)))
}

/// The achievements that the numbers name, each once, in the order of their
/// first number.
pub open spec fn spec_decode_codes(codes: Seq<u16>) -> Seq<Achivement>
    decreases codes.len(),
{
    if codes.len() == 0 {
        Seq::empty()
    } else {
        let m = spec_decode_codes(codes.drop_last());
        match Achivement::spec_from_code(codes.last()) {
            Some(a) => if m.contains(a) {
                m
            } else {
                m.push(a)
            },
            None => m,
        }
    }
}

/// The numbers that name no achievement.
pub open spec fn spec_unknown_codes(codes: Seq<u16>) -> Seq<u16>
    decreases codes.len(),
{
    if codes.len() == 0 {
        Seq::empty()
    } else {
        let m = spec_unknown_codes(codes.drop_last());
        if Achivement::spec_from_code(codes.last()) is None {
            m.push(codes.last())
        } else {
            m
        }
    }
}

/// Why the data file could not be read.
#[derive(Clone, Copy, PartialEq, Eq, Structural, Debug)]
pub enum AchivementDataError {
    /// The text is not base64.
    InvalidBase64,
    /// The bytes are not a MessagePack array of numbers.
    InvalidData,
}

/// The unlocked achievements read from the data file, and the numbers in it
/// that name no achievement.
#[derive(Debug)]
pub struct UnlockedData {
    pub achivements: Vec<Achivement>,
    pub unknown: Vec<u16>,
}

/// The text of the data file for the unlocked achievements.
pub fn encode_unlocked(unlocked: &Vec<Achivement>) -> (r: String)
    requires
        unlocked.len() <= u32::MAX / 8,
    ensures
        r@ == spec_encoded_unlocked(unlocked@),
{
    let mut codes: Vec<u16> = Vec::new();
    let mut i: usize = 0;
    while i < unlocked.len()
        invariant
            0 <= i <= unlocked.len(),
            codes@ == spec_codes(unlocked@.take(i as int)),
        decreases unlocked.len() - i,
    {
        codes.push(unlocked[i].code());
        i += 1;
        assert(codes@ =~= spec_codes(unlocked@.take(i as int)));
    }
    assert(unlocked@.take(unlocked.len() as int) =~= unlocked@);
    let bytes = msgpack_encode(&codes);
    proof {
        lemma_msgpack_len(codes@);
    }
    base64_encode(&bytes)
}

proof fn lemma_msgpack_len(v: Seq<u16>)
    requires
        v.len() <= u32::MAX,
    ensures
        spec_msgpack_u16_list(v).len() <= 5 + 3 * v.len(),
{
    lemma_msgpack_uints_len(v);
}

proof fn lemma_msgpack_uints_len(v: Seq<u16>)
    ensures
        spec_msgpack_uints(v).len() <= 3 * v.len(),
    decreases v.len(),
{
    if v.len() > 0 {
        lemma_msgpack_uints_len(v.drop_last());
    }
}

/// Reads the unlocked achievements from the text of the data file. What
/// `encode_unlocked` wrote of a list reads back as the same list.
pub fn decode_unlocked(data: &str) -> (r: Result<UnlockedData, AchivementDataError>)
    ensures
        forall|list: Seq<Achivement>|
            list.no_duplicates() && list.len() <= u32::MAX && #[trigger] spec_encoded_unlocked(list) == data@
                ==> (r matches Ok(d) && d.achivements@ == list && d.unknown@.len() == 0),
        match base64_decoded(data@) {
            None => r == Err::<UnlockedData, AchivementDataError>(AchivementDataError::InvalidBase64),
            Some(bytes) => match msgpack_u16_list_decoded(bytes) {
                None => r == Err::<UnlockedData, AchivementDataError>(AchivementDataError::InvalidData),
                Some(codes) => r matches Ok(d) && d.achivements@ == spec_decode_codes(codes)
                    && d.unknown@ == spec_unknown_codes(codes),
            },
        },
{
    let bytes = match base64_decode(data) {
        Some(b) => b,
        None => return Err(AchivementDataError::InvalidBase64),
    };
    let codes = match msgpack_decode(&bytes) {
        Some(c) => c,
        None => return Err(AchivementDataError::InvalidData),
    };
    let mut achivements: Vec<Achivement> = Vec::new();
    let mut unknown: Vec<u16> = Vec::new();
    let mut i: usize = 0;
    while i < codes.len()
        invariant
            0 <= i <= codes.len(),
            achivements@ == spec_decode_codes(codes@.take(i as int)),
            unknown@ == spec_unknown_codes(codes@.take(i as int)),
        decreases codes.len() - i,
    {
        assert(codes@.take(i + 1).drop_last() =~= codes@.take(i as int));
        match Achivement::from_u16(codes[i]) {
            Some(a) => {
                if !list_contains(&achivements, a) {
                    achivements.push(a);
                }
            },
            None => {
                unknown.push(codes[i]);
            },
        }
        i += 1;
    }
    assert(codes@.take(codes.len() as int) =~= codes@);
    proof {
        assert forall|list: Seq<Achivement>|
            list.no_duplicates() && list.len() <= u32::MAX && #[trigger] spec_encoded_unlocked(list) == data@
            implies achivements@ == list && unknown@.len() == 0 by {
            lemma_decode_codes_round_trip(list);
        }
    }
    Ok(UnlockedData { achivements, unknown })
}

proof fn lemma_decode_codes_round_trip(list: Seq<Achivement>)
    requires
        list.no_duplicates(),
    ensures
        spec_decode_codes(spec_codes(list)) == list,
        spec_unknown_codes(spec_codes(list)) == Seq::<u16>::empty(),
    decreases list.len(),
{
    if list.len() > 0 {
        let init = list.drop_last();
        assert(spec_codes(list).drop_last() =~= spec_codes(init));
        assert(init.no_duplicates());
        lemma_decode_codes_round_trip(init);
        Achivement::lemma_code_round_trip(list.last());
        assert(!init.contains(list.last())) by {
            if init.contains(list.last()) {
                let k = choose|k: int| 0 <= k < init.len() && #[trigger] init[k] == list.last();
                assert(list[k] == list[list.len() - 1]);
            }
        }
        assert(init.push(list.last()) =~= list);
    }
}

} // verus!
