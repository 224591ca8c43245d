//! The save file format: a header of length-prefixed fields followed by the
//! encoded planet, and the naming and listing of save files.
use vstd::prelude::*;
use vstd::multiset::Multiset;
use vstd::utf8::*;

use crate::tutorial::TutorialState;

verus! {

broadcast use vstd::utf8::group_utf8_lib;

/// Extension of save file names.
pub const SAVE_FILE_EXTENSION: &'static str = "planet";

/// Version written into new save files.
pub const GAME_VERSION: &'static str = "0.1.0";

/// Local time of a save, written as "YYYY-MM-DD hh:mm:ss".
#[derive(Clone, PartialEq, Eq, Debug)]
pub struct SavedTime(pub String);

/// Settings stored beside the planet in a save file.
#[derive(Clone, Debug)]
pub struct SaveFileMetadata {
    pub debug_mode_enabled: bool,
    pub tutorial_state: Option<TutorialState>,
}

impl Default for SaveFileMetadata {
    fn default() -> (m: SaveFileMetadata)
        ensures
            !m.debug_mode_enabled,
            m.tutorial_state is None,
    {
        SaveFileMetadata { debug_mode_enabled: false, tutorial_state: None }
    }
}

/// A save file: the version that wrote it, when and under which name, the
/// encoded metadata and the encoded planet.
#[derive(Clone, Debug)]
pub struct SaveFile {
    pub version: String,
    pub time: SavedTime,
    pub name: String,
    pub metadata: Vec<u8>,
    pub planet_data: Vec<u8>,
}

/// Why the bytes of a save file could not be read.
#[derive(Clone, Copy, PartialEq, Eq, Structural, Debug)]
pub enum SaveFileError {
    /// The data ends before a field that its header announces.
    UnexpectedEof,
    /// A text field is not valid UTF-8.
    InvalidUtf8,
}

/// The content of a save file as plain values.
pub struct SaveFileView {
    pub version: Seq<char>,
    pub time: Seq<char>,
    pub name: Seq<char>,
    pub metadata: Seq<u8>,
    pub planet_data: Seq<u8>,
}

impl SaveFile {
    pub open spec fn spec_view(&self) -> SaveFileView {
        SaveFileView {
            version: self.version@,
            time: self.time.0@,
            name: self.name@,
            metadata: self.metadata@,
            planet_data: self.planet_data@,
        }
    }
}

/// A text field: its length in one byte, then its UTF-8 bytes.
pub open spec fn spec_encode_text(s: Seq<char>) -> Seq<u8> {
    seq![encode_utf8(s).len() as u8] + encode_utf8(s)
}

/// The bytes of a save file.
pub open spec fn spec_encode(f: SaveFileView) -> Seq<u8> {
    spec_encode_text(f.version) + spec_encode_text(f.time) + spec_encode_text(f.name) + seq![
        (f.metadata.len() / 256) as u8,
        (f.metadata.len() % 256) as u8,
    ] + f.metadata + f.planet_data
}

/// The fields of the view fit the one-byte and two-byte lengths of the format.
pub open spec fn spec_encodable(f: SaveFileView) -> bool {
    &&& encode_utf8(f.version).len() <= 255
    &&& encode_utf8(f.time).len() <= 255
    &&& encode_utf8(f.name).len() <= 255
    &&& f.metadata.len() <= 65535
}

/// Reads a text field at `pos`: the text and the position after it.
pub open spec fn spec_read_text(data: Seq<u8>, pos: int) -> Result<(Seq<char>, int), SaveFileError> {
    if pos >= data.len() {
        Err(SaveFileError::UnexpectedEof)
    } else {
        let end = pos + 1 + data[pos] as int;
        if end > data.len() {
            Err(SaveFileError::UnexpectedEof)
        } else if !valid_utf8(data.subrange(pos + 1, end)) {
            Err(SaveFileError::InvalidUtf8)
        } else {
            Ok((decode_utf8(data.subrange(pos + 1, end)), end))
        }
    }
}

/// Reads the metadata field at `pos` and the planet data after it.
pub open spec fn spec_read_tail(data: Seq<u8>, pos: int) -> Result<(Seq<u8>, Seq<u8>), SaveFileError> {
    if pos + 2 > data.len() {
        Err(SaveFileError::UnexpectedEof)
    } else {
        let end = pos + 2 + data[pos] as int * 256 + data[pos + 1] as int;
        if end > data.len() {
            Err(SaveFileError::UnexpectedEof)
        } else {
            Ok((data.subrange(pos + 2, end), data.subrange(end, data.len() as int)))
        }
    }
}

/// Reads a save file: version, time and name, then metadata and planet.
pub open spec fn spec_decode(data: Seq<u8>) -> Result<SaveFileView, SaveFileError> {
    match spec_read_text(data, 0) {
        Err(e) => Err(e),
        Ok((version, p1)) => match spec_read_text(data, p1) {
            Err(e) => Err(e),
            Ok((time, p2)) => match spec_read_text(data, p2) {
                Err(e) => Err(e),
                Ok((name, p3)) => match spec_read_tail(data, p3) {
                    Err(e) => Err(e),
                    Ok((metadata, planet_data)) => Ok(
                        SaveFileView { version, time, name, metadata, planet_data },
                    ),
                },
            },
        },
    }
}

/// The UTF-8 text of `bytes`, if they are valid UTF-8.
#[verifier::external_body]
fn string_from_utf8(bytes: Vec<u8>) -> (r: Option<String>)
    ensures
        match r {
            Some(s) => valid_utf8(bytes@) && s@ == decode_utf8(bytes@),
            None => !valid_utf8(bytes@),
        },
{
    String::from_utf8(bytes).ok()
}

/// Appends `bytes` to `buf`.
fn push_bytes(buf: &mut Vec<u8>, bytes: &[u8])
    ensures
        final(buf)@ == old(buf)@ + bytes@,
{
    let mut i: usize = 0;
    while i < bytes.len()
        invariant
            0 <= i <= bytes.len(),
            buf@ == old(buf)@ + bytes@.take(i as int),
        decreases bytes.len() - i,
    {
        buf.push(bytes[i]);
        i += 1;
        assert(buf@ =~= old(buf)@ + bytes@.take(i as int));
    }
    assert(bytes@.take(bytes.len() as int) =~= bytes@);
}

/// The bytes of `data` from `from` up to `to`.
fn copy_range(data: &[u8], from: usize, to: usize) -> (r: Vec<u8>)
    requires
        from <= to <= data.len(),
    ensures
        r@ == data@.subrange(from as int, to as int),
{
    let mut r: Vec<u8> = Vec::new();
    let mut i: usize = from;
    while i < to
        invariant
            from <= i <= to <= data.len(),
            r@ == data@.subrange(from as int, i as int),
        decreases to - i,
    {
        r.push(data[i]);
        i += 1;
        assert(r@ =~= data@.subrange(from as int, i as int));
    }
    r
}

/// Appends a text field to `buf`.
fn push_text(buf: &mut Vec<u8>, s: &String)
    requires
        encode_utf8(s@).len() <= 255,
    ensures
        final(buf)@ == old(buf)@ + spec_encode_text(s@),
{
    let bytes = s.as_str().as_bytes();
    buf.push(bytes.len() as u8);
    push_bytes(buf, bytes);
    assert(buf@ =~= old(buf)@ + spec_encode_text(s@));
}

/// Reads a text field at `pos`.
fn read_text(data: &[u8], pos: usize) -> (r: Result<(String, usize), SaveFileError>)
    ensures
        match r {
            Ok((s, p)) => spec_read_text(data@, pos as int) == Ok::<(Seq<char>, int), SaveFileError>((s@, p as int)),
            Err(e) => spec_read_text(data@, pos as int) == Err::<(Seq<char>, int), SaveFileError>(e),
        },
{
    if pos >= data.len() {
        return Err(SaveFileError::UnexpectedEof);
    }
    let len = data[pos] as usize;
    if len > data.len() - pos - 1 {
        return Err(SaveFileError::UnexpectedEof);
    }
    let end = pos + 1 + len;
    let bytes = copy_range(data, pos + 1, end);
    match string_from_utf8(bytes) {
        Some(s) => Ok((s, end)),
        None => Err(SaveFileError::InvalidUtf8),
    }
}

impl SaveFile {
    /// A save file written now by this version of the game.
    pub fn new(planet_data: Vec<u8>, name: &str, metadata: Vec<u8>, time: SavedTime) -> (f: SaveFile)
        ensures
            f.version@ == GAME_VERSION@,
            f.time == time,
            f.name@ == name@,
            f.metadata == metadata,
            f.planet_data == planet_data,
    {
        SaveFile {
            version: GAME_VERSION.to_owned(),
            time,
            name: name.to_owned(),
            metadata,
            planet_data,
        }
    }

    /// The bytes of the save file; every text field has a one-byte length and
    /// the metadata a two-byte big-endian length.
    pub fn to_bytes(&self) -> (r: Vec<u8>)
        requires
            spec_encodable(self.spec_view()),
        ensures
            r@ == spec_encode(self.spec_view()),
    {
        let mut buf: Vec<u8> = Vec::new();
        push_text(&mut buf, &self.version);
        push_text(&mut buf, &self.time.0);
        push_text(&mut buf, &self.name);
        let len = self.metadata.len();
        buf.push((len / 256) as u8);
        buf.push((len % 256) as u8);
        push_bytes(&mut buf, self.metadata.as_slice());
        push_bytes(&mut buf, self.planet_data.as_slice());
        assert(buf@ =~= spec_encode(self.spec_view()));
        buf
    }

    /// Reads a save file from its bytes.
    pub fn from_bytes(data: &[u8]) -> (r: Result<SaveFile, SaveFileError>)
        ensures
            match r {
                Ok(f) => spec_decode(data@) == Ok::<SaveFileView, SaveFileError>(f.spec_view()),
                Err(e) => spec_decode(data@) == Err::<SaveFileView, SaveFileError>(e),
            },
    {
        let (version, p1) = match read_text(data, 0) {
            Ok(v) => v,
            Err(e) => return Err(e),
        };
        let (time, p2) = match read_text(data, p1) {
            Ok(v) => v,
            Err(e) => return Err(e),
        };
        let (name, p3) = match read_text(data, p2) {
            Ok(v) => v,
            Err(e) => return Err(e),
        };
        if p3 > data.len() || data.len() - p3 < 2 {
            return Err(SaveFileError::UnexpectedEof);
        }
        let len = data[p3] as usize * 256 + data[p3 + 1] as usize;
        if len > data.len() - p3 - 2 {
            return Err(SaveFileError::UnexpectedEof);
        }
        let end = p3 + 2 + len;
        let metadata = copy_range(data, p3 + 2, end);
        let planet_data = copy_range(data, end, data.len());
        let f = SaveFile { version, time: SavedTime(time), name, metadata, planet_data };
        assert(f.spec_view().version == spec_decode(data@)->Ok_0.version);
        Ok(f)
    }
}

/// Reading the bytes of a save file gives back the save file.
pub proof fn law_save_file_round_trip(f: SaveFileView)
    requires
        spec_encodable(f),
    ensures
        spec_decode(spec_encode(f)) == Ok::<SaveFileView, SaveFileError>(f),
{
    let data = spec_encode(f);
    let v = spec_encode_text(f.version);
    let t = spec_encode_text(f.time);
    let n = spec_encode_text(f.name);
    let ml = seq![(f.metadata.len() / 256) as u8, (f.metadata.len() % 256) as u8];
    let p1 = v.len() as int;
    let p2 = p1 + t.len();
    let p3 = p2 + n.len();
    encode_utf8_valid_utf8(f.version);
    encode_utf8_valid_utf8(f.time);
    encode_utf8_valid_utf8(f.name);
    encode_utf8_decode_utf8(f.version);
    encode_utf8_decode_utf8(f.time);
    encode_utf8_decode_utf8(f.name);
    assert(data =~= v + t + n + ml + f.metadata + f.planet_data);
    assert(data[0] as int == encode_utf8(f.version).len());
    assert(data.subrange(1, p1) =~= encode_utf8(f.version));
    assert(data[p1] as int == encode_utf8(f.time).len());
    assert(data.subrange(p1 + 1, p2) =~= encode_utf8(f.time));
    assert(data[p2] as int == encode_utf8(f.name).len());
    assert(data.subrange(p2 + 1, p3) =~= encode_utf8(f.name));
    assert(data[p3] == (f.metadata.len() / 256) as u8);
    assert(data[p3 + 1] == (f.metadata.len() % 256) as u8);
    assert(data[p3] as int * 256 + data[p3 + 1] as int == f.metadata.len());
    let end = p3 + 2 + f.metadata.len();
    assert(data.subrange(p3 + 2, end) =~= f.metadata);
    assert(data.subrange(end, data.len() as int) =~= f.planet_data);
    assert(spec_decode(data) == Ok::<SaveFileView, SaveFileError>(f));
}

/// The character of a decimal digit.
pub open spec fn spec_digit_char(d: int) -> char {
    ((d + 48) as u32) as char
}

/// The decimal digits of `n`, without leading zeros ("0" for zero).
pub open spec fn spec_decimal(n: nat) -> Seq<char>
    decreases n,
{
    if n < 10 {
        seq![spec_digit_char(n as int)]
    } else {
        spec_decimal(n / 10) + seq![spec_digit_char((n % 10) as int)]
    }
}

/// `s` with zeros in front up to six characters.
pub open spec fn spec_zero_pad6(s: Seq<char>) -> Seq<char> {
    if s.len() < 6 {
        Seq::new((6 - s.len()) as nat, |i: int| '0') + s
    } else {
        s
    }
}

/// The name of the save file with number `n`; automatic saves have their own prefix.
pub open spec fn spec_save_file_name(auto: bool, n: nat) -> Seq<char> {
    (if auto { "autosave"@ } else { Seq::empty() }) + spec_zero_pad6(spec_decimal(n)) + "."@
        + SAVE_FILE_EXTENSION@
}

/// The value of a text of decimal digits.
pub open spec fn spec_decimal_value(s: Seq<char>) -> nat
    decreases s.len(),
{
    if s.len() == 0 {
        0
    } else {
        spec_decimal_value(s.drop_last()) * 10 + (s.last() as nat - 48) as nat
    }
}

pub open spec fn spec_is_ascii_digit(c: char) -> bool {
    '0' <= c <= '9'
}

/// The number that a text of ASCII decimal digits stands for, if it fits in `u32`.
pub open spec fn spec_parse_u32(s: Seq<char>) -> Option<u32> {
    if s.len() > 0 && (forall|i: int| 0 <= i < s.len() ==> spec_is_ascii_digit(#[trigger] s[i]))
        && spec_decimal_value(s) <= u32::MAX {
        Some(spec_decimal_value(s) as u32)
    } else {
        None
    }
}

/// The text of one decimal digit.
fn digit_str(d: u32) -> (r: &'static str)
    requires
        d < 10,
    ensures
        r@ == seq![spec_digit_char(d as int)],
{
    proof {
        reveal_strlit("0");
        reveal_strlit("1");
        reveal_strlit("2");
        reveal_strlit("3");
        reveal_strlit("4");
        reveal_strlit("5");
        reveal_strlit("6");
        reveal_strlit("7");
        reveal_strlit("8");
        reveal_strlit("9");
    }
    let r = match d {
        0 => "0",
        1 => "1",
        2 => "2",
        3 => "3",
        4 => "4",
        5 => "5",
        6 => "6",
        7 => "7",
        8 => "8",
        _ => "9",
    };
    assert(r@ =~= seq![spec_digit_char(d as int)]);
    r
}

/// Appends the decimal digits of `n`.
fn push_decimal(s: &mut String, n: u32)
    ensures
        final(s)@ == old(s)@ + spec_decimal(n as nat),
    decreases n,
{
    if n >= 10 {
        push_decimal(s, n / 10);
    }
    s.append(digit_str(n % 10));
    assert(s@ =~= old(s)@ + spec_decimal(n as nat));
}

/// The number of decimal digits of `n`.
fn decimal_len(n: u32) -> (r: usize)
    ensures
        r == spec_decimal(n as nat).len(),
        r <= n as nat + 1,
    decreases n,
{
    if n < 10 {
        1
    } else {
        decimal_len(n / 10) + 1
    }
}

/// The name of the save file with number `n`: six digits at least, and a
/// prefix for automatic saves.
pub fn save_file_name(auto: bool, n: u32) -> (r: String)
    ensures
        r@ == spec_save_file_name(auto, n as nat),
{
    proof {
        reveal_strlit("autosave");
        reveal_strlit(".");
        reveal_strlit("planet");
        reveal_strlit("0");
    }
    let mut s = if auto { String::from_str("autosave") } else { String::new() };
    let ghost prefix = s@;
    let len = decimal_len(n);
    let mut i: usize = len;
    while i < 6
        invariant
            len <= i <= 6 || (len > 6 && i == len),
            len == spec_decimal(n as nat).len(),
            s@ == prefix + Seq::new((i - len) as nat, |k: int| '0'),
        decreases 6 - i,
    {
        proof {
            reveal_strlit("0");
        }
        s.append("0");
        i += 1;
        assert(s@ =~= prefix + Seq::new((i - len) as nat, |k: int| '0'));
    }
    push_decimal(&mut s, n);
    s.append(".");
    s.append(SAVE_FILE_EXTENSION);
    assert(s@ =~= spec_save_file_name(auto, n as nat));
    s
}

/// The number that a text of ASCII decimal digits stands for, if it fits in `u32`.
pub fn parse_u32(s: &str) -> (r: Option<u32>)
    ensures
        r == spec_parse_u32(s@),
{
    let len = s.unicode_len();
    if len == 0 {
        return None;
    }
    let mut value: u32 = 0;
    let mut i: usize = 0;
    while i < len
        invariant
            0 <= i <= len,
            len == s@.len(),
            forall|j: int| 0 <= j < i ==> spec_is_ascii_digit(#[trigger] s@[j]),
            value as nat == spec_decimal_value(s@.take(i as int)),
        decreases len - i,
    {
        let c = s.get_char(i);
        assert(s@.take(i + 1).drop_last() =~= s@.take(i as int));
        if c < '0' || c > '9' {
            return None;
        }
        let d = (c as u32) - 48;
        if value > (u32::MAX - d) / 10 {
            proof {
                assert(spec_decimal_value(s@.take(i + 1)) > u32::MAX);
                if forall|j: int| 0 <= j < s@.len() ==> spec_is_ascii_digit(#[trigger] s@[j]) {
                    lemma_decimal_value_monotone(s@, i + 1);
                }
            }
            return None;
        }
        value = value * 10 + d;
        i += 1;
    }
    assert(s@.take(len as int) =~= s@);
    Some(value)
}

/// The value of a prefix of digits is at most the value of the whole text.
proof fn lemma_decimal_value_monotone(s: Seq<char>, k: int)
    requires
        0 <= k <= s.len(),
        forall|j: int| 0 <= j < s.len() ==> spec_is_ascii_digit(#[trigger] s[j]),
    ensures
        spec_decimal_value(s.take(k)) <= spec_decimal_value(s),
    decreases s.len() - k,
{
    if k < s.len() {
        lemma_decimal_value_monotone(s, k + 1);
        assert(s.take(k + 1).drop_last() =~= s.take(k));
        assert(s.take(k + 1).last() == s[k]);
    } else {
        assert(s.take(k) =~= s);
    }
}

/// Parsing the digits of a number gives back the number.
pub proof fn law_decimal_round_trip(n: u32)
    ensures
        spec_parse_u32(spec_decimal(n as nat)) == Some(n),
{
    lemma_decimal_value(n as nat);
}

proof fn lemma_decimal_value(n: nat)
    ensures
        spec_decimal(n).len() > 0,
        forall|i: int| 0 <= i < spec_decimal(n).len() ==> spec_is_ascii_digit(#[trigger] spec_decimal(n)[i]),
        spec_decimal_value(spec_decimal(n)) == n,
    decreases n,
{
    if n < 10 {
        assert(spec_decimal(n).drop_last() =~= Seq::<char>::empty());
        assert(spec_digit_char(n as int) as nat == n + 48);
        assert(spec_decimal_value(spec_decimal(n).drop_last()) == 0);
        assert(spec_decimal_value(spec_decimal(n)) == spec_decimal_value(spec_decimal(n).drop_last()) * 10
            + (spec_decimal(n).last() as nat - 48) as nat);
    } else {
        lemma_decimal_value(n / 10);
        let s = spec_decimal(n);
        assert(s.drop_last() =~= spec_decimal(n / 10));
        assert(s.last() == spec_digit_char((n % 10) as int));
        assert(spec_digit_char((n % 10) as int) as nat == n % 10 + 48);
        assert(n == (n / 10) * 10 + n % 10);
        assert(spec_decimal_value(s) == spec_decimal_value(s.drop_last()) * 10 + (s.last() as nat - 48) as nat);
        assert(spec_decimal_value(s.drop_last()) == n / 10);
        assert forall|i: int| 0 <= i < s.len() implies spec_is_ascii_digit(#[trigger] s[i]) by {
            if i < s.len() - 1 {
                assert(s[i] == spec_decimal(n / 10)[i]);
            }
        }
    }
}

/// The prefix of `s` before its first occurrence of `c`.
pub open spec fn spec_before_first(s: Seq<char>, c: char) -> Option<Seq<char>> {
    if exists|i: int| 0 <= i < s.len() && s[i] == c {
        let i = choose|i: int| 0 <= i < s.len() && s[i] == c && forall|j: int| 0 <= j < i ==> s[j] != c;
        Some(s.take(i))
    } else {
        None
    }
}

/// There is a first occurrence of `c` when there is one.
proof fn lemma_first_occurrence(s: Seq<char>, c: char, i: int)
    requires
        0 <= i < s.len(),
        s[i] == c,
        forall|j: int| 0 <= j < i ==> s[j] != c,
    ensures
        spec_before_first(s, c) == Some(s.take(i)),
{
    let k = choose|k: int| 0 <= k < s.len() && s[k] == c && forall|j: int| 0 <= j < k ==> s[j] != c;
    assert(k == i);
}

impl SavedTime {
    /// The time of a local timestamp text "YYYY-MM-DD hh:mm:ss.fff +zz:zz": the
    /// part before the first '.'; none when the text has no '.'.
    pub fn from_timestamp_text(text: &str) -> (r: Option<SavedTime>)
        ensures
            match r {
                Some(t) => spec_before_first(text@, '.') == Some(t.0@),
                None => spec_before_first(text@, '.') is None,
            },
    {
        let len = text.unicode_len();
        let mut i: usize = 0;
        while i < len
            invariant
                0 <= i <= len,
                len == text@.len(),
                forall|j: int| 0 <= j < i ==> text@[j] != '.',
            decreases len - i,
        {
            if text.get_char(i) == '.' {
                proof {
                    lemma_first_occurrence(text@, '.', i as int);
                }
                let prefix = text.substring_char(0, i);
                return Some(SavedTime(prefix.to_owned()));
            }
            i += 1;
        }
        None
    }

    pub fn as_str(&self) -> (r: &str)
        ensures
            r@ == self.0@,
    {
        self.0.as_str()
    }

    /// A copy of the time.
    pub fn copy(&self) -> (r: SavedTime)
        ensures
            r.0@ == self.0@,
    {
        SavedTime(self.0.clone())
    }
}

/// The largest number of the list, zero for an empty list.
pub open spec fn spec_max(s: Seq<u32>) -> nat
    decreases s.len(),
{
    if s.len() == 0 {
        0
    } else {
        let m = spec_max(s.drop_last());
        if s.last() as nat > m {
            s.last() as nat
        } else {
            m
        }
    }
}

/// The number for a new save file: one more than the largest number in use.
pub fn next_save_number(list: &Vec<u32>) -> (r: u32)
    requires
        spec_max(list@) < u32::MAX,
    ensures
        r == spec_max(list@) + 1,
{
    let mut m: u32 = 0;
    let mut i: usize = 0;
    while i < list.len()
        invariant
            0 <= i <= list.len(),
            m == spec_max(list@.take(i as int)),
        decreases list.len() - i,
    {
        assert(list@.take(i + 1).drop_last() =~= list@.take(i as int));
        if list[i] > m {
            m = list[i];
        }
        i += 1;
    }
    assert(list@.take(list.len() as int) =~= list@);
    m + 1
}

/// A new save number is larger than every number in use, so no two saves of
/// a kind share a number.
pub proof fn law_save_number_fresh(list: Seq<u32>)
    ensures
        forall|i: int| 0 <= i < list.len() ==> (#[trigger] list[i]) < spec_max(list) + 1,
    decreases list.len(),
{
    if list.len() > 0 {
        law_save_number_fresh(list.drop_last());
        assert forall|i: int| 0 <= i < list.len() implies (#[trigger] list[i]) < spec_max(list) + 1 by {
            if i < list.len() - 1 {
                assert(list[i] == list.drop_last()[i]);
            }
        }
    }
}

/// The saves of the current planet and the list of save directories.
#[derive(Debug)]
pub struct SaveState {
    /// Directory of the current planet.
    pub current: String,
    /// Save directories: latest saved time and name.
    pub list: std::collections::VecDeque<(SavedTime, String)>,
    pub manual_save_files: Vec<u32>,
    pub auto_save_files: Vec<u32>,
    pub save_file_metadata: SaveFileMetadata,
}

impl Default for SaveState {
    fn default() -> (st: SaveState)
        ensures
            st.current@ == Seq::<char>::empty(),
            st.list@.len() == 0,
            st.manual_save_files@.len() == 0,
            st.auto_save_files@.len() == 0,
    {
        SaveState {
            current: String::new(),
            list: std::collections::VecDeque::new(),
            manual_save_files: Vec::new(),
            auto_save_files: Vec::new(),
            save_file_metadata: SaveFileMetadata::default(),
        }
    }
}

impl SaveState {
    /// Takes the save directories found, latest saved first; directories saved
    /// at the same time keep their order.
    pub fn set_save_dirs(&mut self, dirs: Vec<(SavedTime, String)>)
        ensures
            final(self).list@ == spec_sort_latest_first(dirs@),
            final(self).current == old(self).current,
            final(self).manual_save_files == old(self).manual_save_files,
            final(self).auto_save_files == old(self).auto_save_files,
    {
        let sorted = sort_latest_first(dirs);
        let mut list = std::collections::VecDeque::new();
        let mut rest = sorted;
        let ghost all = rest@;
        while rest.len() > 0
            invariant
                list@ + rest@ == all,
            decreases rest.len(),
        {
            let x = rest.remove(0);
            list.push_back(x);
            assert(list@ + rest@ =~= all);
        }
        assert(list@ =~= all);
        self.list = list;
    }
}

impl SaveState {
    /// Chooses the number of a new save file, records it among the automatic
    /// or manual saves, and gives its name and number.
    pub fn register_save_file(&mut self, auto: bool) -> (r: (String, u32))
        requires
            auto ==> spec_max(old(self).auto_save_files@) < u32::MAX,
            !auto ==> spec_max(old(self).manual_save_files@) < u32::MAX,
        ensures
            auto ==> r.1 == spec_max(old(self).auto_save_files@) + 1
                && final(self).auto_save_files@ == old(self).auto_save_files@.push(r.1)
                && final(self).manual_save_files == old(self).manual_save_files,
            !auto ==> r.1 == spec_max(old(self).manual_save_files@) + 1
                && final(self).manual_save_files@ == old(self).manual_save_files@.push(r.1)
                && final(self).auto_save_files == old(self).auto_save_files,
            r.0@ == spec_save_file_name(auto, r.1 as nat),
            final(self).current == old(self).current,
            final(self).list == old(self).list,
    {
        let n = if auto {
            let n = next_save_number(&self.auto_save_files);
            self.auto_save_files.push(n);
            n
        } else {
            let n = next_save_number(&self.manual_save_files);
            self.manual_save_files.push(n);
            n
        };
        (save_file_name(auto, n), n)
    }
}

/// The numbers of the list other than `n`, in their order.
pub open spec fn spec_without_number(s: Seq<u32>, n: u32) -> Seq<u32> {
    s.filter(spec_other_number(n))
}

pub open spec fn spec_other_number(n: u32) -> spec_fn(u32) -> bool {
    |x: u32| x != n
}

pub open spec fn spec_other_dir(name: Seq<char>) -> spec_fn((SavedTime, String)) -> bool {
    |e: (SavedTime, String)| e.1@ != name
}

/// The save directories other than those named `name`, in their order.
pub open spec fn spec_without_dir(s: Seq<(SavedTime, String)>, name: Seq<char>) -> Seq<(SavedTime, String)> {
    s.filter(spec_other_dir(name))
}

fn remove_number(v: &mut Vec<u32>, n: u32)
    ensures
        final(v)@ == spec_without_number(old(v)@, n),
{
    let ghost orig = v@;
    let ghost keep = spec_other_number(n);
    let mut kept: Vec<u32> = Vec::new();
    let mut i: usize = 0;
    proof {
        reveal(Seq::filter);
        assert(orig.take(0) =~= Seq::<u32>::empty());
    }
    while i < v.len()
        invariant
            0 <= i <= v.len(),
            v@ == orig,
            keep == spec_other_number(n),
            kept@ == orig.take(i as int).filter(keep),
        decreases v.len() - i,
    {
        let x = v[i];
        proof {
            assert(orig.take(i + 1) =~= orig.take(i as int).push(x));
            orig.take(i as int).lemma_filter_push(x, keep);
        }
        if x != n {
            kept.push(x);
        }
        i += 1;
    }
    proof {
        assert(orig.take(i as int) =~= orig);
    }
    *v = kept;
}

impl SaveState {
    /// Records that a save was deleted: when it was one file (`all` false) of
    /// the current directory, file `n` leaves the automatic or manual saves;
    /// when the current directory then holds no saves, the directories named
    /// `sub_dir` leave the list.
    ///
    /// "No saves" means both lists empty, the case the game's own comment
    /// describes (a directory whose saves were all deleted); the game's code
    /// tests the automatic list twice there.
    pub fn forget_deleted_save(&mut self, sub_dir: &str, all: bool, auto: bool, n: u32)
        ensures
            ({
                let in_current = !all && old(self).current@ == sub_dir@;
                &&& final(self).auto_save_files@ == if in_current && auto {
                    spec_without_number(old(self).auto_save_files@, n)
                } else {
                    old(self).auto_save_files@
                }
                &&& final(self).manual_save_files@ == if in_current && !auto {
                    spec_without_number(old(self).manual_save_files@, n)
                } else {
                    old(self).manual_save_files@
                }
            }),
            final(self).list@ == if final(self).auto_save_files@.len() == 0
                && final(self).manual_save_files@.len() == 0 {
                spec_without_dir(old(self).list@, sub_dir@)
            } else {
                old(self).list@
            },
            final(self).current == old(self).current,
            final(self).save_file_metadata == old(self).save_file_metadata,
    {
        if !all && crate::assets::same_text(self.current.as_str(), sub_dir) {
            if auto {
                remove_number(&mut self.auto_save_files, n);
            } else {
                remove_number(&mut self.manual_save_files, n);
            }
        }
        if self.auto_save_files.len() == 0 && self.manual_save_files.len() == 0 {
            let ghost orig = self.list@;
            let ghost autos = self.auto_save_files@;
            let ghost manuals = self.manual_save_files@;
            let ghost keep = spec_other_dir(sub_dir@);
            let mut kept: std::collections::VecDeque<(SavedTime, String)> = std::collections::VecDeque::new();
            proof {
                reveal(Seq::filter);
                assert(orig.take(0) =~= Seq::<(SavedTime, String)>::empty());
            }
            let ghost k: int = 0;
            while self.list.len() > 0
                invariant
                    0 <= k <= orig.len(),
                    self.list@ == orig.skip(k),
                    keep == spec_other_dir(sub_dir@),
                    kept@ == orig.take(k).filter(keep),
                    self.auto_save_files@ == autos,
                    self.manual_save_files@ == manuals,
                    self.current == old(self).current,
                    self.save_file_metadata == old(self).save_file_metadata,
                decreases self.list.len(),
            {
                let e = self.list.pop_front().unwrap();
                proof {
                    assert(orig.take(k + 1) =~= orig.take(k).push(e));
                    orig.take(k).lemma_filter_push(e, keep);
                    assert(orig.skip(k + 1) =~= orig.skip(k).drop_first());
                }
                if !crate::assets::same_text(e.1.as_str(), sub_dir) {
                    kept.push_back(e);
                }
                proof {
                    k = k + 1;
                }
            }
            proof {
                assert(orig.take(k) =~= orig);
            }
            self.list = kept;
        }
    }

    /// Opens the save directory of a new planet: it comes first in the list,
    /// saved at `time`, becomes the current directory, and holds no saves yet.
    pub fn open_new_save_dir(&mut self, time: SavedTime, name: String)
        ensures
            final(self).list@ == seq![(time, name)] + old(self).list@,
            final(self).current@ == name@,
            final(self).auto_save_files@.len() == 0,
            final(self).manual_save_files@.len() == 0,
            final(self).save_file_metadata == old(self).save_file_metadata,
    {
        self.current = name.clone();
        self.list.push_front((time, name));
        self.auto_save_files = Vec::new();
        self.manual_save_files = Vec::new();
    }
}

/// A save file found in a save directory.
#[derive(Clone, Debug)]
pub struct SaveSubDirItem {
    pub time: SavedTime,
    pub _file_name: String,
    pub auto: bool,
    pub n: u32,
}

/// Why a file of a save directory is left out of the listing.
#[derive(Clone, Copy, PartialEq, Eq, Structural, Debug)]
pub enum SaveSubDirSkip {
    InvalidSaveFile(SaveFileError),
    InvalidFileName,
}

/// Whether `s` ends with `suffix`.
pub open spec fn spec_ends_with(s: Seq<char>, suffix: Seq<char>) -> bool {
    s.len() >= suffix.len() && s.skip(s.len() - suffix.len()) == suffix
}

fn ends_with(s: &str, suffix: &str) -> (r: bool)
    ensures
        r == spec_ends_with(s@, suffix@),
{
    let n = s.unicode_len();
    let m = suffix.unicode_len();
    if n < m {
        return false;
    }
    let mut i: usize = 0;
    while i < m
        invariant
            0 <= i <= m <= n,
            n == s@.len(),
            m == suffix@.len(),
            forall|j: int| 0 <= j < i ==> s@[n - m + j] == suffix@[j],
        decreases m - i,
    {
        if s.get_char(n - m + i) != suffix.get_char(i) {
            assert(s@.skip(n - m)[i as int] != suffix@[i as int]);
            return false;
        }
        i += 1;
    }
    assert(s@.skip(n - m) =~= suffix@);
    true
}

/// Whether a file name has the extension of save files.
pub fn is_save_file_name(file_name: &str) -> (r: bool)
    ensures
        r == spec_ends_with(file_name@, "."@ + SAVE_FILE_EXTENSION@),
{
    let mut ext = String::from_str(".");
    ext.append(SAVE_FILE_EXTENSION);
    proof {
        reveal_strlit(".");
    }
    ends_with(file_name, ext.as_str())
}

/// The pattern of save file names: an optional `autosave` prefix, the
/// number, and an extension.
pub const SAVE_FILE_NAME_PATTERN: &'static str = "(autosave)?(\\d+)\\..+";

/// What `regex` finds of `text` with `pattern`: none when it refuses the
/// pattern; then none when the text does not match; then the texts of groups
/// 1 and 2 of the first match, each when the group took part.
pub uninterp spec fn regex_captures(pattern: Seq<char>, text: Seq<char>) -> Option<Option<(Option<Seq<char>>, Option<Seq<char>>)>>;

pub open spec fn spec_group_view(g: Option<String>) -> Option<Seq<char>> {
    match g {
        Some(s) => Some(s@),
        None => None,
    }
}

pub open spec fn spec_captures_view(c: Option<Option<(Option<String>, Option<String>)>>) -> Option<Option<(Option<Seq<char>>, Option<Seq<char>>)>> {
    match c {
        Some(Some((g1, g2))) => Some(Some((spec_group_view(g1), spec_group_view(g2)))),
        Some(None) => Some(None),
        None => None,
    }
}

/// `regex::Regex::new` with the pattern, then `captures` on the text, taking
/// groups 1 and 2 of the match.
#[verifier::external_body]
fn captures_of(pattern: &str, text: &str) -> (r: Option<Option<(Option<String>, Option<String>)>>)
    ensures
        spec_captures_view(r) == regex_captures(pattern@, text@),
{
    let re = match regex::Regex::new(pattern) {
        Ok(re) => re,
        Err(_) => return None,
    };
    let caps = match re.captures(text) {
        Some(caps) => caps,
        None => return Some(None),
    };
    let g1 = match caps.get(1) { Some(m) => Some(m.as_str().to_owned()), None => None };
    let g2 = match caps.get(2) { Some(m) => Some(m.as_str().to_owned()), None => None };
    Some(Some((g1, g2)))
}

/// The listing entry of a save file from its decoded header and what the
/// name pattern found in its name: none where the game stops (the pattern
/// refused, no number group, or a number beyond `u32`).
pub open spec fn spec_save_sub_dir_item(
    data: Seq<u8>,
    captures: Option<Option<(Option<Seq<char>>, Option<Seq<char>>)>>,
) -> Option<Result<(Seq<char>, bool, u32), SaveSubDirSkip>> {
    match spec_decode(data) {
        Err(e) => Some(Err(SaveSubDirSkip::InvalidSaveFile(e))),
        Ok(f) => match captures {
            None => None,
            Some(None) => Some(Err(SaveSubDirSkip::InvalidFileName)),
            Some(Some((prefix, digits))) => match digits {
                None => None,
                Some(d) => match spec_parse_u32(d) {
                    None => None,
                    Some(n) => Some(Ok((f.time, prefix == Some("autosave"@), n))),
                },
            },
        },
    }
}

pub open spec fn spec_item_view(r: Option<Result<SaveSubDirItem, SaveSubDirSkip>>) -> Option<Result<(Seq<char>, bool, u32), SaveSubDirSkip>> {
    match r {
        Some(Ok(item)) => Some(Ok((item.time.0@, item.auto, item.n))),
        Some(Err(e)) => Some(Err(e)),
        None => None,
    }
}

/// The listing entry of a save file, given what the name pattern found in
/// its name; none where the game stops.
pub fn save_sub_dir_item_from_captures(
    file_name: String,
    data: &[u8],
    captures: Option<Option<(Option<String>, Option<String>)>>,
) -> (r: Option<Result<SaveSubDirItem, SaveSubDirSkip>>)
    ensures
        spec_item_view(r) == spec_save_sub_dir_item(data@, spec_captures_view(captures)),
        r matches Some(Ok(item)) ==> item._file_name == file_name,
{
    let save_file = match SaveFile::from_bytes(data) {
        Ok(f) => f,
        Err(e) => return Some(Err(SaveSubDirSkip::InvalidSaveFile(e))),
    };
    match captures {
        None => None,
        Some(None) => Some(Err(SaveSubDirSkip::InvalidFileName)),
        Some(Some((prefix, digits))) => {
            proof {
                reveal_strlit("autosave");
            }
            let auto = match prefix {
                Some(p) => p == String::from_str("autosave"),
                None => false,
            };
            let digits = match digits {
                Some(d) => d,
                None => return None,
            };
            match parse_u32(digits.as_str()) {
                Some(n) => Some(Ok(SaveSubDirItem { time: save_file.time, _file_name: file_name, auto, n })),
                None => None,
            }
        },
    }
}

/// The listing entry of a save file of a save directory; none where the game
/// stops.
pub fn save_sub_dir_item(file_name: String, data: &[u8]) -> (r: Option<Result<SaveSubDirItem, SaveSubDirSkip>>)
    ensures
        spec_item_view(r) == spec_save_sub_dir_item(data@, regex_captures(SAVE_FILE_NAME_PATTERN@, file_name@)),
        r matches Some(Ok(item)) ==> item._file_name == file_name,
{
    let captures = captures_of(SAVE_FILE_NAME_PATTERN, file_name.as_str());
    save_sub_dir_item_from_captures(file_name, data, captures)
}

/// Strict lexicographic order of texts by character; for UTF-8 text it is
/// the byte order in which `String`s compare.
pub open spec fn spec_text_lt(a: Seq<char>, b: Seq<char>) -> bool
    decreases a.len(),
{
    if a.len() == 0 {
        b.len() > 0
    } else if b.len() == 0 {
        false
    } else if a[0] != b[0] {
        (a[0] as int) < (b[0] as int)
    } else {
        spec_text_lt(a.drop_first(), b.drop_first())
    }
}

proof fn lemma_text_lt_skip(a: Seq<char>, b: Seq<char>, i: int)
    requires
        0 <= i <= a.len(),
        i <= b.len(),
        a.take(i) == b.take(i),
    ensures
        spec_text_lt(a, b) == spec_text_lt(a.skip(i), b.skip(i)),
    decreases i,
{
    if i > 0 {
        assert(a[0] == a.take(i)[0]);
        assert(b[0] == b.take(i)[0]);
        assert(a.drop_first().take(i - 1) =~= a.take(i).drop_first());
        assert(b.drop_first().take(i - 1) =~= b.take(i).drop_first());
        lemma_text_lt_skip(a.drop_first(), b.drop_first(), i - 1);
        assert(a.drop_first().skip(i - 1) =~= a.skip(i));
        assert(b.drop_first().skip(i - 1) =~= b.skip(i));
    } else {
        assert(a.skip(0) =~= a);
        assert(b.skip(0) =~= b);
    }
}

/// No text comes before itself.
pub proof fn lemma_text_lt_irreflexive(a: Seq<char>)
    ensures
        !spec_text_lt(a, a),
    decreases a.len(),
{
    if a.len() > 0 {
        lemma_text_lt_irreflexive(a.drop_first());
    }
}

/// Of two different texts, one comes before the other, and not both ways.
pub proof fn lemma_text_lt_total(a: Seq<char>, b: Seq<char>)
    ensures
        a != b ==> (spec_text_lt(a, b) || spec_text_lt(b, a)),
        !(spec_text_lt(a, b) && spec_text_lt(b, a)),
    decreases a.len(),
{
    if a.len() > 0 && b.len() > 0 && a[0] == b[0] {
        lemma_text_lt_total(a.drop_first(), b.drop_first());
        if a != b {
            if a.drop_first() == b.drop_first() {
                assert(a =~= seq![a[0]] + a.drop_first());
                assert(b =~= seq![b[0]] + b.drop_first());
            }
        }
    } else if a.len() == 0 && b.len() == 0 {
        assert(a =~= b);
    } else if a.len() > 0 && b.len() > 0 {
        assert((a[0] as int) != (b[0] as int));
    }
}

/// The order of texts is transitive.
pub proof fn lemma_text_lt_transitive(a: Seq<char>, b: Seq<char>, c: Seq<char>)
    requires
        spec_text_lt(a, b),
        spec_text_lt(b, c),
    ensures
        spec_text_lt(a, c),
    decreases a.len(),
{
    if a.len() > 0 && b.len() > 0 && c.len() > 0 && a[0] == b[0] && b[0] == c[0] {
        lemma_text_lt_transitive(a.drop_first(), b.drop_first(), c.drop_first());
    }
}

/// Whether `a` comes strictly before `b` in character order.
pub fn text_lt(a: &str, b: &str) -> (r: bool)
    ensures
        r == spec_text_lt(a@, b@),
{
    let n = a.unicode_len();
    let m = b.unicode_len();
    let mut i: usize = 0;
    while i < n && i < m
        invariant
            0 <= i <= n,
            i <= m,
            n == a@.len(),
            m == b@.len(),
            a@.take(i as int) == b@.take(i as int),
        decreases n - i,
    {
        let ca = a.get_char(i);
        let cb = b.get_char(i);
        if ca != cb {
            proof {
                lemma_text_lt_skip(a@, b@, i as int);
                assert(a@.skip(i as int)[0] == ca);
                assert(b@.skip(i as int)[0] == cb);
            }
            return (ca as u32) < (cb as u32);
        }
        assert(a@.take(i + 1) =~= a@.take(i as int).push(ca));
        assert(b@.take(i + 1) =~= b@.take(i as int).push(cb));
        i += 1;
    }
    proof {
        lemma_text_lt_skip(a@, b@, i as int);
    }
    i < m
}

/// Things listed with the time of their last save.
pub trait HasSavedTime {
    spec fn spec_time(&self) -> Seq<char>;

    fn saved_time(&self) -> (r: &SavedTime)
        ensures
            r.0@ == self.spec_time(),
    ;
}

impl HasSavedTime for SaveSubDirItem {
    open spec fn spec_time(&self) -> Seq<char> {
        self.time.0@
    }

    fn saved_time(&self) -> (r: &SavedTime) {
        &self.time
    }
}

impl HasSavedTime for (SavedTime, String) {
    open spec fn spec_time(&self) -> Seq<char> {
        self.0.0@
    }

    fn saved_time(&self) -> (r: &SavedTime) {
        &self.0
    }
}

/// Inserts `x` into a list sorted from the latest time, after every entry
/// whose time is not earlier than that of `x`.
pub open spec fn spec_insert_latest_first<T: HasSavedTime>(sorted: Seq<T>, x: T) -> Seq<T>
    decreases sorted.len(),
{
    if sorted.len() == 0 {
        seq![x]
    } else if spec_text_lt(sorted[0].spec_time(), x.spec_time()) {
        seq![x] + sorted
    } else {
        seq![sorted[0]] + spec_insert_latest_first(sorted.drop_first(), x)
    }
}

/// The list sorted from the latest time to the earliest; entries of equal
/// time keep their order.
pub open spec fn spec_sort_latest_first<T: HasSavedTime>(s: Seq<T>) -> Seq<T>
    decreases s.len(),
{
    if s.len() == 0 {
        Seq::empty()
    } else {
        spec_insert_latest_first(spec_sort_latest_first(s.drop_last()), s.last())
    }
}

proof fn lemma_insert_at<T: HasSavedTime>(sorted: Seq<T>, x: T, j: int)
    requires
        0 <= j <= sorted.len(),
        forall|k: int| 0 <= k < j ==> !spec_text_lt(#[trigger] sorted[k].spec_time(), x.spec_time()),
        j < sorted.len() ==> spec_text_lt(sorted[j].spec_time(), x.spec_time()),
    ensures
        spec_insert_latest_first(sorted, x) == sorted.insert(j, x),
    decreases j,
{
    if j == 0 {
        if sorted.len() == 0 {
            assert(sorted.insert(0, x) =~= seq![x]);
        } else {
            assert(sorted.insert(0, x) =~= seq![x] + sorted);
        }
    } else {
        let rest = sorted.drop_first();
        assert forall|k: int| 0 <= k < j - 1 implies !spec_text_lt(#[trigger] rest[k].spec_time(), x.spec_time()) by {
            assert(rest[k] == sorted[k + 1]);
        }
        lemma_insert_at(rest, x, j - 1);
        assert(sorted.insert(j, x) =~= seq![sorted[0]] + rest.insert(j - 1, x));
    }
}

/// Sorts the list from the latest time to the earliest, keeping the order of
/// entries of equal time.
pub fn sort_latest_first<T: HasSavedTime>(items: Vec<T>) -> (r: Vec<T>)
    ensures
        r@ == spec_sort_latest_first(items@),
{
    let ghost orig = items@;
    let mut rest = items;
    let mut result: Vec<T> = Vec::new();
    let ghost mut done: int = 0;
    assert(orig.take(0) =~= Seq::<T>::empty());
    while rest.len() > 0
        invariant
            0 <= done <= orig.len(),
            rest@ == orig.skip(done),
            result@ == spec_sort_latest_first(orig.take(done)),
        decreases rest.len(),
    {
        let x = rest.remove(0);
        let mut j: usize = 0;
        while j < result.len() && !text_lt(result[j].saved_time().as_str(), x.saved_time().as_str())
            invariant
                0 <= j <= result.len(),
                forall|k: int| 0 <= k < j ==> !spec_text_lt(#[trigger] result@[k].spec_time(), x.spec_time()),
            decreases result.len() - j,
        {
            j += 1;
        }
        proof {
            lemma_insert_at(result@, x, j as int);
            assert(orig.skip(done)[0] == x);
            assert(orig.take(done + 1).drop_last() =~= orig.take(done));
            assert(orig.take(done + 1).last() == x);
        }
        result.insert(j, x);
        proof {
            done = done + 1;
            assert(rest@ =~= orig.skip(done));
        }
    }
    assert(orig.take(done) =~= orig);
    result
}

/// Inserting into a list keeps its items and adds one.
proof fn lemma_insert_multiset<T: HasSavedTime>(sorted: Seq<T>, x: T)
    ensures
        spec_insert_latest_first(sorted, x).to_multiset() == sorted.to_multiset().insert(x),
    decreases sorted.len(),
{
    broadcast use vstd::seq_lib::group_to_multiset_ensures;

    if sorted.len() == 0 {
        assert(seq![x] =~= Seq::<T>::empty().push(x));
    } else if spec_text_lt(sorted[0].spec_time(), x.spec_time()) {
        assert(seq![x] + sorted =~= sorted.insert(0, x));
        sorted.to_multiset_ensures();
        vstd::seq_lib::lemma_seq_union_to_multiset_commutative(seq![x], sorted);
        vstd::seq_lib::lemma_multiset_commutative(seq![x], sorted);
        assert(seq![x].to_multiset() =~= Multiset::empty().insert(x)) by {
            assert(seq![x] =~= Seq::<T>::empty().push(x));
        }
    } else {
        lemma_insert_multiset(sorted.drop_first(), x);
        let rest = spec_insert_latest_first(sorted.drop_first(), x);
        vstd::seq_lib::lemma_multiset_commutative(seq![sorted[0]], rest);
        vstd::seq_lib::lemma_multiset_commutative(seq![sorted[0]], sorted.drop_first());
        assert(seq![sorted[0]] + sorted.drop_first() =~= sorted);
        assert(seq![sorted[0]].to_multiset() =~= Multiset::empty().insert(sorted[0])) by {
            assert(seq![sorted[0]] =~= Seq::<T>::empty().push(sorted[0]));
        }
    }
}

/// Inserting keeps a list sorted from the latest time.
proof fn lemma_insert_sorted<T: HasSavedTime>(sorted: Seq<T>, x: T)
    requires
        spec_latest_first(sorted),
    ensures
        spec_latest_first(spec_insert_latest_first(sorted, x)),
    decreases sorted.len(),
{
    broadcast use vstd::seq_lib::group_to_multiset_ensures;

    if sorted.len() > 0 && !spec_text_lt(sorted[0].spec_time(), x.spec_time()) {
        let rest = sorted.drop_first();
        assert(spec_latest_first(rest)) by {
            assert forall|i: int, j: int| 0 <= i < j < rest.len() implies !spec_text_lt(
                #[trigger] rest[i].spec_time(),
                #[trigger] rest[j].spec_time(),
            ) by {
                assert(rest[i] == sorted[i + 1] && rest[j] == sorted[j + 1]);
            }
        }
        lemma_insert_sorted(rest, x);
        lemma_insert_multiset(rest, x);
        let r = spec_insert_latest_first(rest, x);
        let whole = seq![sorted[0]] + r;
        assert forall|i: int, j: int| 0 <= i < j < whole.len() implies !spec_text_lt(
            #[trigger] whole[i].spec_time(),
            #[trigger] whole[j].spec_time(),
        ) by {
            if i == 0 {
                let y = r[j - 1];
                assert(r.contains(y));
                assert(r.to_multiset().count(y) > 0);
                assert(rest.to_multiset().insert(x).count(y) > 0);
                if y != x {
                    assert(rest.to_multiset().count(y) > 0);
                    assert(rest.contains(y));
                    let k = choose|k: int| 0 <= k < rest.len() && rest[k] == y;
                    assert(sorted[k + 1] == y);
                }
                lemma_text_lt_total(sorted[0].spec_time(), y.spec_time());
                lemma_text_lt_irreflexive(y.spec_time());
            } else {
                assert(whole[i] == r[i - 1] && whole[j] == r[j - 1]);
            }
        }
    } else if sorted.len() > 0 {
        let whole = seq![x] + sorted;
        assert forall|i: int, j: int| 0 <= i < j < whole.len() implies !spec_text_lt(
            #[trigger] whole[i].spec_time(),
            #[trigger] whole[j].spec_time(),
        ) by {
            if i == 0 {
                assert(whole[j] == sorted[j - 1]);
                if j - 1 > 0 {
                    assert(!spec_text_lt(sorted[0].spec_time(), sorted[j - 1].spec_time()));
                    lemma_text_lt_total(sorted[0].spec_time(), sorted[j - 1].spec_time());
                    lemma_text_lt_total(x.spec_time(), sorted[j - 1].spec_time());
                    if spec_text_lt(x.spec_time(), sorted[j - 1].spec_time()) {
                        if sorted[0].spec_time() == sorted[j - 1].spec_time() {
                        } else {
                            lemma_text_lt_transitive(x.spec_time(), sorted[j - 1].spec_time(), sorted[0].spec_time());
                            lemma_text_lt_total(x.spec_time(), sorted[0].spec_time());
                        }
                    }
                } else {
                    lemma_text_lt_total(sorted[0].spec_time(), x.spec_time());
                }
            } else {
                assert(whole[i] == sorted[i - 1] && whole[j] == sorted[j - 1]);
            }
        }
    }
}

/// No entry comes before a later one: the list runs from the latest time.
pub open spec fn spec_latest_first<T: HasSavedTime>(s: Seq<T>) -> bool {
    forall|i: int, j: int| 0 <= i < j < s.len() ==> !spec_text_lt(#[trigger] s[i].spec_time(), #[trigger] s[j].spec_time())
}

/// Sorting from the latest time gives a list that runs from the latest time
/// and holds the same entries.
pub proof fn law_sort_latest_first<T: HasSavedTime>(s: Seq<T>)
    ensures
        spec_latest_first(spec_sort_latest_first(s)),
        spec_sort_latest_first(s).to_multiset() == s.to_multiset(),
    decreases s.len(),
{
    broadcast use vstd::seq_lib::group_to_multiset_ensures;

    if s.len() > 0 {
        law_sort_latest_first(s.drop_last());
        lemma_insert_sorted(spec_sort_latest_first(s.drop_last()), s.last());
        lemma_insert_multiset(spec_sort_latest_first(s.drop_last()), s.last());
        assert(s.drop_last().push(s.last()) =~= s);
    } else {
        assert(s.to_multiset() =~= Multiset::empty());
    }
}

/// What the listing of a save directory holds of an entry: its file name,
/// time, whether it was saved automatically, and its number.
pub open spec fn spec_listed(item: SaveSubDirItem) -> (Seq<char>, Seq<char>, bool, u32) {
    (item._file_name@, item.time.0@, item.auto, item.n)
}

/// The entries of a save directory's listing, in the order of its files:
/// files without the save file extension and files that cannot be read as
/// save files are left out; none where the game stops on a file name.
pub open spec fn spec_save_sub_dir_listing(files: Seq<(String, Vec<u8>)>) -> Option<Seq<(Seq<char>, Seq<char>, bool, u32)>>
    decreases files.len(),
{
    if files.len() == 0 {
        Some(Seq::empty())
    } else {
        match spec_save_sub_dir_listing(files.drop_last()) {
            None => None,
            Some(list) => {
                let (name, data) = files.last();
                if !spec_ends_with(name@, "."@ + SAVE_FILE_EXTENSION@) {
                    Some(list)
                } else {
                    match spec_save_sub_dir_item(data@, regex_captures(SAVE_FILE_NAME_PATTERN@, name@)) {
                        None => None,
                        Some(Err(_)) => Some(list),
                        Some(Ok((time, auto, n))) => Some(list.push((name@, time, auto, n))),
                    }
                }
            },
        }
    }
}

/// The listing of a save directory, from the names and contents of its files,
/// sorted from the latest save to the earliest; none where the game stops on
/// a file name.
pub fn read_save_sub_dir(files: Vec<(String, Vec<u8>)>) -> (r: Option<Vec<SaveSubDirItem>>)
    ensures
        match spec_save_sub_dir_listing(files@) {
            None => r is None,
            Some(listing) => r matches Some(v) && exists|items: Seq<SaveSubDirItem>|
                items.map_values(|i: SaveSubDirItem| spec_listed(i)) == listing && v@
                    == spec_sort_latest_first(items),
        },
{
    let mut items: Vec<SaveSubDirItem> = Vec::new();
    let mut i: usize = 0;
    while i < files.len()
        invariant
            0 <= i <= files.len(),
            spec_save_sub_dir_listing(files@.take(i as int)) matches Some(listing)
                && items@.map_values(|it: SaveSubDirItem| spec_listed(it)) == listing,
        decreases files.len() - i,
    {
        assert(files@.take(i + 1).drop_last() =~= files@.take(i as int));
        let name = files[i].0.clone();
        if is_save_file_name(name.as_str()) {
            match save_sub_dir_item(name, files[i].1.as_slice()) {
                None => {
                    proof {
                        lemma_listing_stops(files@, i as int);
                    }
                    return None;
                },
                Some(Err(_)) => {},
                Some(Ok(item)) => {
                    let ghost before = items@;
                    items.push(item);
                    assert(items@.map_values(|it: SaveSubDirItem| spec_listed(it)) =~= before.map_values(
                        |it: SaveSubDirItem| spec_listed(it),
                    ).push(spec_listed(item)));
                },
            }
        }
        i += 1;
    }
    assert(files@.take(files.len() as int) =~= files@);
    let sorted = sort_latest_first(items);
    Some(sorted)
}

/// Once the game stops on a file, it stops on the whole directory.
proof fn lemma_listing_stops(files: Seq<(String, Vec<u8>)>, i: int)
    requires
        0 <= i < files.len(),
        spec_save_sub_dir_listing(files.take(i + 1)) is None,
    ensures
        spec_save_sub_dir_listing(files) is None,
    decreases files.len() - i,
{
    if i + 1 < files.len() {
        assert(files.take(i + 2).drop_last() =~= files.take(i + 1));
        lemma_listing_stops(files, i + 1);
    } else {
        assert(files.take(i + 1) =~= files);
    }
}

} // verus!
