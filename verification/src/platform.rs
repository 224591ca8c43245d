//! What the game decides about its platform: the window size, the save
//! directories found among the keys of the browser's storage, and the
//! messages exchanged with the game launcher.
use vstd::prelude::*;

use crate::savefile::{lemma_text_lt_total, lemma_text_lt_transitive, spec_text_lt, text_lt, SavedTime};

verus! {

/// The window size when nothing else is known.
pub const DEFAULT_WINDOW_SIZE: (u32, u32) = (1600, 900);

/// How large the window should open.
#[derive(Clone, Copy, PartialEq, Eq, Structural, Debug)]
pub enum PreferredWindowResolution {
    Size(u32, u32),
    Maximized,
}

impl Default for PreferredWindowResolution {
    fn default() -> (r: PreferredWindowResolution)
        ensures
            r == PreferredWindowResolution::Size(1600, 900),
    {
        PreferredWindowResolution::Size(1600, 900)
    }
}

/// On a desktop the window opens at the default size.
pub fn preferred_window_size() -> (r: (u32, u32))
    ensures
        r == DEFAULT_WINDOW_SIZE,
{
    DEFAULT_WINDOW_SIZE
}

/// On a desktop nothing is to be done when the game window opens.
pub fn window_open() {
}

/// On a desktop nothing is to be done when the game window closes.
pub fn window_close() {
}

/// The window size rounded down to even numbers of pixels, which keeps the
/// picture sharp.
pub fn even_window_size(width: u32, height: u32) -> (r: (u32, u32))
    ensures
        r == ((width - width % 2) as u32, (height - height % 2) as u32),
        r.0 % 2 == 0 && r.1 % 2 == 0,
        width - 1 <= r.0 <= width,
        height - 1 <= r.1 <= height,
{
    (width - width % 2, height - height % 2)
}

/// The prefix of the storage keys of save files.
pub open spec fn spec_saves_prefix() -> Seq<char> {
    seq!['s', 'a', 'v', 'e', 's', '/']
}

/// The save directory that a storage key names: the text after `saves/` up to
/// the next `/`; none for other keys.
pub open spec fn spec_sub_dir_of(key: Seq<char>) -> Option<Seq<char>> {
    if key.len() >= 6 && key.take(6) == spec_saves_prefix() {
        let rest = key.skip(6);
        match rest.index_of_first('/') {
            Some(i) => Some(rest.take(i)),
            None => None,
        }
    } else {
        None
    }
}

/// Whether `key` starts with `prefix`.
fn starts_with(key: &str, prefix: &str) -> (r: bool)
    ensures
        r == (key@.len() >= prefix@.len() && key@.take(prefix@.len() as int) == prefix@),
{
    let n = key.unicode_len();
    let m = prefix.unicode_len();
    if n < m {
        return false;
    }
    let mut i: usize = 0;
    while i < m
        invariant
            0 <= i <= m <= n,
            n == key@.len(),
            m == prefix@.len(),
            forall|j: int| 0 <= j < i ==> key@[j] == prefix@[j],
        decreases m - i,
    {
        if key.get_char(i) != prefix.get_char(i) {
            assert(key@.take(m as int)[i as int] != prefix@[i as int]);
            return false;
        }
        i += 1;
    }
    assert(key@.take(m as int) =~= prefix@);
    true
}

/// The save directory that a storage key names, if it names one.
pub fn sub_dir_of(key: &str) -> (r: Option<String>)
    ensures
        match r {
            Some(s) => spec_sub_dir_of(key@) == Some(s@),
            None => spec_sub_dir_of(key@) is None,
        },
{
    proof {
        reveal_strlit("saves/");
    }
    let prefix = "saves/";
    assert(prefix@ =~= spec_saves_prefix());
    if !starts_with(key, prefix) {
        return None;
    }
    let n = key.unicode_len();
    let rest = key.substring_char(6, n);
    assert(rest@ =~= key@.skip(6));
    let len = rest.unicode_len();
    let mut i: usize = 0;
    while i < len
        invariant
            0 <= i <= len,
            len == rest@.len(),
            rest@ == key@.skip(6),
            key@.len() >= 6 && key@.take(6) == spec_saves_prefix(),
            forall|j: int| 0 <= j < i ==> rest@[j] != '/',
        decreases len - i,
    {
        if rest.get_char(i) == '/' {
            proof {
                rest@.index_of_first_ensures('/');
                match rest@.index_of_first('/') {
                    Some(k) => {
                        if k < i {
                            assert(rest@[k] != '/');
                        }
                        if k > i {
                            assert(rest@[i as int] == '/');
                        }
                    },
                    None => {
                        assert(rest@[i as int] == '/');
                    },
                }
            }
            let name = rest.substring_char(0, i);
            assert(name@ =~= rest@.take(i as int));
            return Some(String::from_str(name));
        }
        i += 1;
    }
    proof {
        rest@.index_of_first_ensures('/');
        if rest@.index_of_first('/') is Some {
            let k = rest@.index_of_first('/').unwrap();
            assert(rest@[k] == '/');
        }
    }
    None
}

/// Characters that file names cannot hold: `/ ? < > \\ : * | "` and the
/// control characters.
pub open spec fn spec_illegal_in_file_name(c: char) -> bool {
    c == '/' || c == '?' || c == '<' || c == '>' || c == '\\' || c == ':' || c == '*' || c == '|' || c
        == '"' || (c as u32) <= 0x1f || (0x80 <= (c as u32) && (c as u32) <= 0x9f)
}

/// What `sanitize_filename::sanitize_with_options` makes of a name with the
/// given options.
pub uninterp spec fn sanitized(name: Seq<char>, windows: bool, truncate: bool, replacement: Seq<char>) -> Seq<char>;

/// `sanitize_filename::sanitize_with_options`: the name with the characters
/// that file names cannot hold, names made only of dots, and (for Windows)
/// reserved names and trailing dots and spaces replaced by `replacement`, and
/// cut to 255 bytes when truncating. With a replacement free of such
/// characters, the result holds none.
#[verifier::external_body]
fn sanitize_name(name: &str, windows: bool, truncate: bool, replacement: &str) -> (r: String)
    ensures
        r@ == sanitized(name@, windows, truncate, replacement@),
        (forall|i: int| 0 <= i < replacement@.len() ==> !spec_illegal_in_file_name(#[trigger] replacement@[i]))
            ==> forall|i: int| 0 <= i < r@.len() ==> !spec_illegal_in_file_name(#[trigger] r@[i]),
        truncate ==> vstd::utf8::encode_utf8(r@).len() <= 255,
{
    sanitize_filename::sanitize_with_options(name, sanitize_filename::Options { windows, truncate, replacement })
}

/// The name of the save directory of a new planet: its name made fit for a
/// file name on every system, with spaces in place of what cannot stand in
/// one, and at most 255 bytes long.
pub fn save_sub_dir_name(planet_name: &str) -> (r: String)
    ensures
        r@ == sanitized(planet_name@, true, true, " "@),
        forall|i: int| 0 <= i < r@.len() ==> !spec_illegal_in_file_name(#[trigger] r@[i]),
        vstd::utf8::encode_utf8(r@).len() <= 255,
{
    proof {
        reveal_strlit(" ");
    }
    sanitize_name(planet_name, true, true, " ")
}

/// A save directory whose name holds no `/` is found again from the storage
/// key of any of its files.
pub proof fn law_sub_dir_of_file_key(name: Seq<char>, file: Seq<char>)
    requires
        !name.contains('/'),
    ensures
        spec_sub_dir_of(spec_saves_prefix() + name + seq!['/'] + file) == Some(name),
{
    let key = spec_saves_prefix() + name + seq!['/'] + file;
    assert(key.take(6) =~= spec_saves_prefix());
    let rest = key.skip(6);
    assert(rest =~= name + seq!['/'] + file);
    rest.index_of_first_ensures('/');
    assert(rest[name.len() as int] == '/');
    match rest.index_of_first('/') {
        Some(k) => {
            if k < name.len() {
                assert(rest[k] == name[k]);
            }
            if k > name.len() {
                assert(rest[name.len() as int] == '/');
            }
            assert(rest.take(k) =~= name);
        },
        None => {},
    }
}

/// The texts are in strictly increasing order.
pub open spec fn spec_strictly_sorted(s: Seq<Seq<char>>) -> bool {
    forall|i: int, j: int| 0 <= i < j < s.len() ==> spec_text_lt(#[trigger] s[i], #[trigger] s[j])
}

pub open spec fn spec_texts(v: Seq<String>) -> Seq<Seq<char>> {
    v.map_values(|s: String| s@)
}

/// Puts `x` into the sorted list of distinct texts, unless it is there.
fn insert_sorted(list: &mut Vec<String>, x: String)
    requires
        spec_strictly_sorted(spec_texts(old(list)@)),
    ensures
        spec_strictly_sorted(spec_texts(final(list)@)),
        forall|t: Seq<char>| #[trigger] spec_texts(final(list)@).contains(t) <==> (spec_texts(old(list)@).contains(t)
            || t == x@),
{
    let ghost before = spec_texts(list@);
    let mut j: usize = 0;
    while j < list.len() && text_lt(list[j].as_str(), x.as_str())
        invariant
            0 <= j <= list.len(),
            list@ == old(list)@,
            before == spec_texts(old(list)@),
            forall|k: int| 0 <= k < j ==> spec_text_lt(#[trigger] before[k], x@),
        decreases list.len() - j,
    {
        j += 1;
    }
    if j < list.len() && list[j] == x {
        assert(before[j as int] == x@);
        return;
    }
    proof {
        if j < list.len() {
            lemma_text_lt_total(before[j as int], x@);
        }
    }
    list.insert(j, x);
    proof {
        let after = spec_texts(list@);
        assert(after =~= before.insert(j as int, x@));
        assert forall|a: int, b: int| 0 <= a < b < after.len() implies spec_text_lt(#[trigger] after[a], #[trigger] after[b]) by {
            if b < j {
                assert(after[a] == before[a] && after[b] == before[b]);
            } else if b == j {
                assert(after[a] == before[a]);
            } else if a < j {
                assert(after[a] == before[a] && after[b] == before[b - 1]);
                if b - 1 > j {
                    assert(spec_text_lt(before[j as int], before[b - 1]));
                    lemma_text_lt_transitive(x@, before[j as int], before[b - 1]);
                }
                lemma_text_lt_transitive(before[a], x@, before[b - 1]);
            } else if a == j {
                assert(after[b] == before[b - 1]);
                if b - 1 > j {
                    assert(spec_text_lt(before[j as int], before[b - 1]));
                    lemma_text_lt_transitive(x@, before[j as int], before[b - 1]);
                }
            } else {
                assert(after[a] == before[a - 1] && after[b] == before[b - 1]);
            }
        }
        assert forall|t: Seq<char>| #[trigger] after.contains(t) <==> (before.contains(t) || t == x@) by {
            if after.contains(t) {
                let k = choose|k: int| 0 <= k < after.len() && after[k] == t;
                if k < j {
                    assert(before[k] == t);
                } else if k > j {
                    assert(before[k - 1] == t);
                }
            }
            if before.contains(t) {
                let k = choose|k: int| 0 <= k < before.len() && before[k] == t;
                if k < j {
                    assert(after[k] == t);
                } else {
                    assert(after[k + 1] == t);
                }
            }
            if t == x@ {
                assert(after[j as int] == t);
            }
        }
    }
}

/// The names of a list of save directories.
pub open spec fn spec_dir_names(v: Seq<(SavedTime, String)>) -> Seq<Seq<char>> {
    v.map_values(|e: (SavedTime, String)| e.1@)
}

/// Some key of the list names the save directory `t`.
pub open spec fn spec_named_sub_dir(keys: Seq<String>, t: Seq<char>) -> bool {
    exists|i: int| 0 <= i < keys.len() && spec_sub_dir_of((#[trigger] keys[i])@) == Some(t)
}

/// The save directories named by the storage keys, each once, in text order,
/// each with the time `now`.
pub fn save_sub_dirs(keys: &Vec<String>, now: &SavedTime) -> (r: Vec<(SavedTime, String)>)
    ensures
        spec_strictly_sorted(spec_dir_names(r@)),
        forall|t: Seq<char>| #[trigger] spec_dir_names(r@).contains(t) <==> spec_named_sub_dir(keys@, t),
        forall|i: int| 0 <= i < r@.len() ==> (#[trigger] r@[i]).0.0@ == now.0@,
{
    let mut names: Vec<String> = Vec::new();
    let mut i: usize = 0;
    while i < keys.len()
        invariant
            0 <= i <= keys.len(),
            spec_strictly_sorted(spec_texts(names@)),
            forall|t: Seq<char>| #[trigger] spec_texts(names@).contains(t) <==> spec_named_sub_dir(
                keys@.take(i as int),
                t,
            ),
        decreases keys.len() - i,
    {
        let ghost before = spec_texts(names@);
        let found = sub_dir_of(keys[i].as_str());
        match found {
            Some(name) => {
                insert_sorted(&mut names, name);
            },
            None => {},
        }
        proof {
            let prev = keys@.take(i as int);
            let next = keys@.take(i + 1);
            assert forall|t: Seq<char>| #[trigger] spec_texts(names@).contains(t) <==> spec_named_sub_dir(next, t) by {
                if spec_named_sub_dir(prev, t) {
                    let k = choose|k: int| 0 <= k < prev.len() && spec_sub_dir_of((#[trigger] prev[k])@) == Some(t);
                    assert(next[k] == prev[k]);
                }
                if spec_named_sub_dir(next, t) {
                    let k = choose|k: int| 0 <= k < next.len() && spec_sub_dir_of((#[trigger] next[k])@) == Some(t);
                    if k < i {
                        assert(prev[k] == next[k]);
                    } else {
                        assert(next[k] == keys@[i as int]);
                    }
                }
                if spec_sub_dir_of(keys@[i as int]@) == Some(t) {
                    assert(next[i as int] == keys@[i as int]);
                }
            }
        }
        i += 1;
    }
    assert(keys@.take(keys.len() as int) =~= keys@);
    let mut r: Vec<(SavedTime, String)> = Vec::new();
    let mut j: usize = 0;
    while j < names.len()
        invariant
            0 <= j <= names.len(),
            r@.len() == j,
            forall|k: int| 0 <= k < j ==> (#[trigger] r@[k]).1@ == names@[k]@ && r@[k].0.0@ == now.0@,
        decreases names.len() - j,
    {
        r.push((now.copy(), names[j].clone()));
        j += 1;
    }
    assert(spec_dir_names(r@) =~= spec_texts(names@));
    r
}

/// The rest of each key that starts with `prefix`, in key order.
pub open spec fn spec_files_in(keys: Seq<String>, prefix: Seq<char>) -> Seq<Seq<char>>
    decreases keys.len(),
{
    if keys.len() == 0 {
        Seq::empty()
    } else {
        let rest = spec_files_in(keys.drop_last(), prefix);
        let key = keys.last()@;
        if key.len() >= prefix.len() && key.take(prefix.len() as int) == prefix {
            rest.push(key.skip(prefix.len() as int))
        } else {
            rest
        }
    }
}

/// The files of the save directory `dir_name`: the rest of each storage key
/// that starts with `saves/`, the directory's name and `/`, in key order.
pub fn save_sub_dir_files(keys: &Vec<String>, dir_name: &str) -> (r: Vec<String>)
    ensures
        spec_texts(r@) == spec_files_in(keys@, spec_saves_prefix() + dir_name@ + seq!['/']),
{
    proof {
        reveal_strlit("saves/");
        reveal_strlit("/");
    }
    let mut dir_path = String::from_str("saves/");
    dir_path.append(dir_name);
    dir_path.append("/");
    assert(dir_path@ =~= spec_saves_prefix() + dir_name@ + seq!['/']);
    let m = dir_path.as_str().unicode_len();
    let mut files: Vec<String> = Vec::new();
    let mut i: usize = 0;
    while i < keys.len()
        invariant
            0 <= i <= keys.len(),
            m == dir_path@.len(),
            dir_path@ == spec_saves_prefix() + dir_name@ + seq!['/'],
            spec_texts(files@) == spec_files_in(keys@.take(i as int), dir_path@),
        decreases keys.len() - i,
    {
        assert(keys@.take(i + 1).drop_last() =~= keys@.take(i as int));
        let key = keys[i].as_str();
        if starts_with(key, dir_path.as_str()) {
            let n = key.unicode_len();
            let file = key.substring_char(m, n);
            let ghost before = files@;
            files.push(String::from_str(file));
            assert(spec_texts(files@) =~= spec_texts(before).push(key@.skip(m as int)));
        }
        i += 1;
    }
    assert(keys@.take(keys.len() as int) =~= keys@);
    files
}

/// A request to the game launcher.
#[derive(Clone, Debug)]
pub enum Request {
    Start {},
    UnlockAchivement { name: String },
}

/// A response of the game launcher.
#[derive(Clone, Copy, PartialEq, Eq, Structural, Debug)]
pub enum Response {
    Start {},
    UnlockAchivement {},
}

/// Messages to and from the launcher end with a zero byte.
pub const MESSAGE_DELIMITER: u8 = 0;

/// The bytes sent for a message whose JSON text is `json`: the text and the
/// delimiter.
pub fn frame_message(json: &[u8]) -> (r: Vec<u8>)
    ensures
        r@ == json@.push(MESSAGE_DELIMITER),
{
    let mut buf: Vec<u8> = Vec::new();
    let mut i: usize = 0;
    while i < json.len()
        invariant
            0 <= i <= json.len(),
            buf@ == json@.take(i as int),
        decreases json.len() - i,
    {
        buf.push(json[i]);
        i += 1;
        assert(buf@ =~= json@.take(i as int));
    }
    assert(json@.take(json.len() as int) =~= json@);
    buf.push(MESSAGE_DELIMITER);
    buf
}

/// The JSON text of a message read up to and with its delimiter: the bytes
/// without the last one; none for an empty read, on which the game stops.
pub fn unframe_message(buf: &[u8]) -> (r: Option<&[u8]>)
    ensures
        buf@.len() == 0 ==> r is None,
        buf@.len() > 0 ==> (r matches Some(s) && s@ == buf@.drop_last()),
{
    if buf.len() == 0 {
        return None;
    }
    let s = vstd::slice::slice_subrange(buf, 0, buf.len() - 1);
    assert(s@ =~= buf@.drop_last());
    Some(s)
}

/// Reading back a framed message gives the message: the delimiter that
/// framing adds is the byte that unframing takes off.
pub proof fn law_frame_round_trip(json: Seq<u8>)
    ensures
        json.push(MESSAGE_DELIMITER).len() > 0,
        json.push(MESSAGE_DELIMITER).drop_last() == json,
{
    assert(json.push(MESSAGE_DELIMITER).drop_last() =~= json);
}

/// The launcher answered the start of the connection as it should.
pub fn start_acknowledged(resp: &Response) -> (r: bool)
    ensures
        r == (*resp == Response::Start {}),
{
    match resp {
        Response::Start {} => true,
        Response::UnlockAchivement {} => false,
    }
}

} // verus!
