//! Languages of the game's texts, and lists of random names, one name a line.
use vstd::prelude::*;

verus! {

/// A language of the game's texts.
#[derive(Clone, Copy, PartialEq, Eq, Structural, Hash, Debug)]
pub enum Lang {
    English,
    Japanese,
}

impl Lang {
    /// The name of the language in itself.
    pub fn name(&self) -> (r: &'static str)
        ensures
            r@ == (match *self {
                Lang::English => "English"@,
                Lang::Japanese => "\u{65e5}\u{672c}\u{8a9e}"@,
            }),
    {
        match self {
            Lang::English => "English",
            Lang::Japanese => "\u{65e5}\u{672c}\u{8a9e}",
        }
    }

    /// The code of the language, which names its folder of texts.
    pub fn code(&self) -> (r: &'static str)
        ensures
            r@ == (match *self {
                Lang::English => "en"@,
                Lang::Japanese => "ja"@,
            }),
    {
        match self {
            Lang::English => "en",
            Lang::Japanese => "ja",
        }
    }
}

/// The characters that Unicode calls white space.
pub open spec fn spec_is_whitespace(c: char) -> bool {
    let v = c as u32;
    (0x09 <= v && v <= 0x0d) || v == 0x20 || v == 0x85 || v == 0xa0 || v == 0x1680 || (0x2000 <= v && v
        <= 0x200a) || v == 0x2028 || v == 0x2029 || v == 0x202f || v == 0x205f || v == 0x3000
}

fn is_whitespace(c: char) -> (r: bool)
    ensures
        r == spec_is_whitespace(c),
{
    let v = c as u32;
    (0x09 <= v && v <= 0x0d) || v == 0x20 || v == 0x85 || v == 0xa0 || v == 0x1680 || (0x2000 <= v && v
        <= 0x200a) || v == 0x2028 || v == 0x2029 || v == 0x202f || v == 0x205f || v == 0x3000
}

/// A line that holds nothing but white space.
pub open spec fn spec_blank(line: Seq<char>) -> bool {
    forall|i: int| 0 <= i < line.len() ==> spec_is_whitespace(#[trigger] line[i])
}

/// A line without its `\r` before the line feed that ended it.
pub open spec fn spec_strip_cr(line: Seq<char>) -> Seq<char> {
    if line.len() > 0 && line.last() == '\r' {
        line.drop_last()
    } else {
        line
    }
}

/// The names of a list: its lines that are not blank. Lines end at a line
/// feed, which takes a carriage return before it along; a last line needs no
/// line feed, and keeps a carriage return at its end.
pub open spec fn spec_name_lines(text: Seq<char>) -> Seq<Seq<char>>
    decreases text.len(),
{
    match text.index_of_first('\n') {
        Some(k) => {
            proof {
                text.index_of_first_ensures('\n');
            }
            let line = spec_strip_cr(text.take(k));
            let rest = spec_name_lines(text.skip(k + 1));
            if spec_blank(line) {
                rest
            } else {
                seq![line] + rest
            }
        },
        None => if text.len() == 0 || spec_blank(text) {
            Seq::empty()
        } else {
            seq![text]
        },
    }
}

/// Every name of a list is a line that is not blank and holds no line feed.
pub proof fn law_name_lines(text: Seq<char>)
    ensures
        forall|i: int| 0 <= i < spec_name_lines(text).len() ==> {
            let name = #[trigger] spec_name_lines(text)[i];
            &&& !spec_blank(name)
            &&& !name.contains('\n')
        },
    decreases text.len(),
{
    text.index_of_first_ensures('\n');
    match text.index_of_first('\n') {
        Some(k) => {
            law_name_lines(text.skip(k + 1));
            let line = spec_strip_cr(text.take(k));
            assert(!line.contains('\n')) by {
                if line.contains('\n') {
                    let j = choose|j: int| 0 <= j < line.len() && line[j] == '\n';
                    assert(text.take(k)[j] == '\n');
                }
            }
            let rest = spec_name_lines(text.skip(k + 1));
            if !spec_blank(line) {
                assert forall|i: int| 0 <= i < (seq![line] + rest).len() implies {
                    let name = #[trigger] (seq![line] + rest)[i];
                    &&& !spec_blank(name)
                    &&& !name.contains('\n')
                } by {
                    if i > 0 {
                        assert((seq![line] + rest)[i] == rest[i - 1]);
                    }
                }
            }
        },
        None => {},
    }
}

fn blank(line: &str) -> (r: bool)
    ensures
        r == spec_blank(line@),
{
    let n = line.unicode_len();
    let mut i: usize = 0;
    while i < n
        invariant
            0 <= i <= n,
            n == line@.len(),
            forall|j: int| 0 <= j < i ==> spec_is_whitespace(#[trigger] line@[j]),
        decreases n - i,
    {
        if !is_whitespace(line.get_char(i)) {
            return false;
        }
        i += 1;
    }
    true
}

/// The names of a list of random names: its lines that are not blank.
pub fn random_name_list(text: &str) -> (r: Vec<String>)
    ensures
        r@.map_values(|s: String| s@) == spec_name_lines(text@),
{
    let n = text.unicode_len();
    let mut names: Vec<String> = Vec::new();
    let mut start: usize = 0;
    let mut i: usize = 0;
    assert(text@.skip(0) =~= text@);
    while i < n
        invariant
            0 <= start <= i <= n,
            n == text@.len(),
            forall|j: int| start <= j < i ==> text@[j] != '\n',
            names@.map_values(|s: String| s@) + spec_name_lines(text@.skip(start as int)) == spec_name_lines(text@),
        decreases n - i,
    {
        if text.get_char(i) == '\n' {
            let ghost rest = text@.skip(start as int);
            proof {
                assert(rest[i - start] == '\n');
                rest.index_of_first_ensures('\n');
                let k = rest.index_of_first('\n').unwrap();
                if k < i - start {
                    assert(rest[k] == text@[start + k]);
                }
                if k > i - start {
                    assert(rest[i - start] == '\n');
                }
                assert(rest.skip(i - start + 1) =~= text@.skip(i + 1));
            }
            let mut end = i;
            if end > start && text.get_char(end - 1) == '\r' {
                end = end - 1;
            }
            let line = text.substring_char(start, end);
            proof {
                assert(line@ =~= spec_strip_cr(rest.take(i - start)));
            }
            if !blank(line) {
                let ghost before = names@;
                names.push(String::from_str(line));
                proof {
                    assert(names@.map_values(|s: String| s@) =~= before.map_values(|s: String| s@).push(line@));
                    assert(before.map_values(|s: String| s@).push(line@) + spec_name_lines(text@.skip(i + 1))
                        =~= before.map_values(|s: String| s@) + (seq![line@] + spec_name_lines(text@.skip(i + 1))));
                }
            }
            start = i + 1;
        }
        i += 1;
    }
    let ghost rest = text@.skip(start as int);
    proof {
        rest.index_of_first_ensures('\n');
        if rest.index_of_first('\n') is Some {
            let k = rest.index_of_first('\n').unwrap();
            assert(rest[k] == text@[start + k]);
        }
    }
    let line = text.substring_char(start, n);
    assert(line@ =~= rest);
    if start < n && !blank(line) {
        let ghost before = names@;
        names.push(String::from_str(line));
        proof {
            assert(names@.map_values(|s: String| s@) =~= before.map_values(|s: String| s@).push(line@));
        }
    }
    assert(names@.map_values(|s: String| s@) =~= spec_name_lines(text@));
    names
}

/// A letter that may start a placeholder name: ASCII, either case.
pub open spec fn spec_is_name_start(c: char) -> bool {
    ('a' <= c && c <= 'z') || ('A' <= c && c <= 'Z')
}

/// A character that may continue a placeholder name.
pub open spec fn spec_is_name_char(c: char) -> bool {
    spec_is_name_start(c) || ('0' <= c && c <= '9') || c == '_' || c == '-'
}

/// The number of name characters in a row from position `j` on.
pub open spec fn spec_name_run(s: Seq<char>, j: int) -> nat
    decreases s.len() - j,
{
    if j < 0 || j >= s.len() || !spec_is_name_char(s[j]) {
        0
    } else {
        1 + spec_name_run(s, j + 1)
    }
}

/// The length of the name of the placeholder `{$name}` that starts the text,
/// if one does: a letter, then letters, digits, `_` and `-`, then `}`.
pub open spec fn spec_placeholder_at_start(s: Seq<char>) -> Option<nat> {
    if 2 < s.len() && s[0] == '{' && s[1] == '$' && spec_is_name_start(s[2]) {
        let n = spec_name_run(s, 2);
        if 2 + n < s.len() && s[2 + n as int] == '}' {
            Some(n)
        } else {
            None
        }
    } else {
        None
    }
}

/// The value of the first entry of `map` whose key is `key`.
pub open spec fn spec_lookup(map: Seq<(String, String)>, key: Seq<char>) -> Option<Seq<char>>
    decreases map.len(),
{
    if map.len() == 0 {
        None
    } else if map[0].0@ == key {
        Some(map[0].1@)
    } else {
        spec_lookup(map.drop_first(), key)
    }
}

/// The text with each placeholder `{$name}`, from left to right, replaced by
/// the value of `name` in `map`, or by `{}` when `map` has none.
pub open spec fn spec_replace_placeholders(s: Seq<char>, map: Seq<(String, String)>) -> Seq<char>
    decreases s.len(),
{
    if s.len() == 0 {
        Seq::empty()
    } else {
        match spec_placeholder_at_start(s) {
            Some(n) => {
                let value = match spec_lookup(map, s.subrange(2, 2 + n as int)) {
                    Some(v) => v,
                    None => seq!['{', '}'],
                };
                value + spec_replace_placeholders(s.skip(n + 3 as int), map)
            },
            None => seq![s[0]] + spec_replace_placeholders(s.skip(1), map),
        }
    }
}

proof fn lemma_name_run_shift(s: Seq<char>, i: int, j: int)
    requires
        0 <= i <= s.len(),
        0 <= j,
    ensures
        spec_name_run(s.skip(i), j) == spec_name_run(s, i + j),
    decreases s.len() - i - j,
{
    if i + j < s.len() && spec_is_name_char(s[i + j]) {
        lemma_name_run_shift(s, i, j + 1);
    }
}

proof fn lemma_name_run_ends(s: Seq<char>, j: int, k: int)
    requires
        0 <= j <= k <= s.len(),
        forall|m: int| j <= m < k ==> spec_is_name_char(#[trigger] s[m]),
        k == s.len() || !spec_is_name_char(s[k]),
    ensures
        spec_name_run(s, j) == k - j,
    decreases k - j,
{
    if j < k {
        lemma_name_run_ends(s, j + 1, k);
    }
}

fn is_name_start(c: char) -> (r: bool)
    ensures
        r == spec_is_name_start(c),
{
    ('a' <= c && c <= 'z') || ('A' <= c && c <= 'Z')
}

fn is_name_char(c: char) -> (r: bool)
    ensures
        r == spec_is_name_char(c),
{
    is_name_start(c) || ('0' <= c && c <= '9') || c == '_' || c == '-'
}

/// The value of the first entry of `map` whose key is `key`.
fn lookup<'a>(map: &'a Vec<(String, String)>, key: &str) -> (r: Option<&'a String>)
    ensures
        match r {
            Some(v) => spec_lookup(map@, key@) == Some(v@),
            None => spec_lookup(map@, key@) is None,
        },
{
    let mut i: usize = 0;
    assert(map@.skip(0) =~= map@);
    while i < map.len()
        invariant
            0 <= i <= map.len(),
            spec_lookup(map@, key@) == spec_lookup(map@.skip(i as int), key@),
        decreases map.len() - i,
    {
        assert(map@.skip(i as int).drop_first() =~= map@.skip(i + 1));
        if crate::assets::same_text(map[i].0.as_str(), key) {
            return Some(&map[i].1);
        }
        i += 1;
    }
    None
}

/// Replaces each placeholder `{$name}` of `s`, from left to right, by the
/// value of `name` in `map`, or by `{}` when `map` has none; the first entry
/// of a key counts.
pub fn replace(s: &str, map: &Vec<(String, String)>) -> (r: String)
    ensures
        r@ == spec_replace_placeholders(s@, map@),
{
    let n = s.unicode_len();
    let mut out = String::new();
    let mut i: usize = 0;
    assert(s@.skip(0) =~= s@);
    while i < n
        invariant
            0 <= i <= n,
            n == s@.len(),
            out@ + spec_replace_placeholders(s@.skip(i as int), map@) == spec_replace_placeholders(s@, map@),
        decreases n - i,
    {
        let ghost rest = s@.skip(i as int);
        // Looks for a placeholder at `i`.
        let mut found: Option<usize> = None;
        if n - i > 2 && s.get_char(i) == '{' && s.get_char(i + 1) == '$' && is_name_start(s.get_char(i + 2)) {
            let mut k: usize = i + 3;
            while k < n && is_name_char(s.get_char(k))
                invariant
                    i + 3 <= k <= n,
                    n == s@.len(),
                    forall|m: int| i + 2 <= m < k ==> spec_is_name_char(#[trigger] s@[m]),
                decreases n - k,
            {
                k += 1;
            }
            proof {
                lemma_name_run_ends(s@, i + 2, k as int);
                lemma_name_run_shift(s@, i as int, 2);
            }
            if k < n && s.get_char(k) == '}' {
                found = Some(k - (i + 2));
            }
        }
        proof {
            if i + 2 < n && rest[0] == '{' && rest[1] == '$' && spec_is_name_start(rest[2]) {
                lemma_name_run_shift(s@, i as int, 2);
            }
        }
        match found {
            Some(len) => {
                let ghost before = out@;
                let name = s.substring_char(i + 2, i + 2 + len);
                match lookup(map, name) {
                    Some(v) => out.append(v.as_str()),
                    None => out.append("{}"),
                }
                proof {
                    assert(spec_placeholder_at_start(rest) == Some(len as nat));
                    assert(name@ =~= rest.subrange(2, 2 + len as int));
                    reveal_strlit("{}");
                    assert("{}"@ =~= seq!['{', '}']);
                    let value = match spec_lookup(map@, rest.subrange(2, 2 + len as int)) {
                        Some(v) => v,
                        None => seq!['{', '}'],
                    };
                    assert(out@ == before + value);
                    assert(spec_replace_placeholders(rest, map@) == value + spec_replace_placeholders(rest.skip(len + 3), map@));
                    assert(rest.skip(len + 3) =~= s@.skip(i + len + 3));
                    assert(out@ + spec_replace_placeholders(s@.skip(i + len + 3), map@) =~= before
                        + spec_replace_placeholders(rest, map@));
                }
                i = i + len + 3;
            },
            None => {
                let ghost before = out@;
                out.append(s.substring_char(i, i + 1));
                proof {
                    assert(spec_placeholder_at_start(rest) is None);
                    assert(rest.skip(1) =~= s@.skip(i + 1));
                    assert(rest[0] == s@[i as int]);
                    assert(out@ + spec_replace_placeholders(s@.skip(i + 1), map@) =~= before
                        + spec_replace_placeholders(rest, map@));
                }
                i = i + 1;
            },
        }
    }
    assert(s@.skip(n as int) =~= Seq::<char>::empty());
    assert(out@ + Seq::<char>::empty() =~= out@);
    out
}

} // verus!
