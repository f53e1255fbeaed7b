//! Key paths of the form `dir/file/outer.middle.inner`: everything up
//! to the last slash names a file (given the data store's extension),
//! and the dot-separated rest is the chain of keys to read from it.
use vstd::prelude::*;

use crate::text::push_char;

verus! {

/// The largest index holding `c`, or -1.
pub open spec fn last_index_of(s: Seq<char>, c: char) -> int
    decreases s.len(),
{
    if s.len() == 0 {
        -1
    } else if s.last() == c {
        s.len() - 1
    } else {
        last_index_of(s.drop_last(), c)
    }
}

proof fn lemma_last_index_of(s: Seq<char>, c: char, j: int)
    requires
        0 <= j < s.len(),
        s[j] == c,
        forall|k: int| j < k < s.len() ==> s[k] != c,
    ensures
        last_index_of(s, c) == j,
    decreases s.len(),
{
    if j == s.len() - 1 {
    } else {
        assert(s.last() != c);
        assert(s.drop_last()[j] == c);
        assert(forall|k: int| j < k < s.drop_last().len() ==> s.drop_last()[k] != c);
        lemma_last_index_of(s.drop_last(), c, j);
    }
}

proof fn lemma_last_index_of_none(s: Seq<char>, c: char)
    requires
        forall|k: int| 0 <= k < s.len() ==> s[k] != c,
    ensures
        last_index_of(s, c) == -1,
    decreases s.len(),
{
    if s.len() > 0 {
        assert(forall|k: int| 0 <= k < s.drop_last().len() ==> s.drop_last()[k] != c);
        lemma_last_index_of_none(s.drop_last(), c);
    }
}

/// Find the largest index holding `c`, as the spec says.
fn find_last(s: &str, c: char) -> (r: Option<usize>)
    ensures
        match r {
            Some(j) => j < s@.len() && last_index_of(s@, c) == j,
            None => last_index_of(s@, c) == -1,
        },
{
    let len: usize = s.unicode_len();
    let mut j: usize = len;
    while j > 0
        invariant
            0 <= j <= len,
            len == s@.len(),
            forall|k: int| j <= k < len ==> s@[k] != c,
        decreases j,
    {
        j = j - 1;
        if s.get_char(j) == c {
            proof {
                lemma_last_index_of(s@, c, j as int);
            }
            return Some(j);
        }
    }
    proof {
        lemma_last_index_of_none(s@, c);
    }
    None
}

/// The smallest index at or after 0 holding `c`, or the length.
pub open spec fn first_index_of(s: Seq<char>, c: char) -> int
    decreases s.len(),
{
    if s.len() == 0 {
        0
    } else if s[0] == c {
        0
    } else {
        1 + first_index_of(s.skip(1), c)
    }
}

pub proof fn lemma_first_index_is(s: Seq<char>, c: char, j: int)
    requires
        0 <= j < s.len(),
        s[j] == c,
        forall|k: int| 0 <= k < j ==> s[k] != c,
    ensures
        first_index_of(s, c) == j,
    decreases j,
{
    if j == 0 {
    } else {
        assert(s[0] != c);
        assert(s.skip(1)[j - 1] == c);
        assert(forall|k: int| 0 <= k < j - 1 ==> s.skip(1)[k] == s[k + 1] && s.skip(1)[k] != c);
        lemma_first_index_is(s.skip(1), c, j - 1);
    }
}

pub proof fn lemma_first_index_is_none(s: Seq<char>, c: char)
    requires
        forall|k: int| 0 <= k < s.len() ==> s[k] != c,
    ensures
        first_index_of(s, c) == s.len(),
    decreases s.len(),
{
    if s.len() > 0 {
        assert(forall|k: int| 0 <= k < s.skip(1).len() ==> s.skip(1)[k] == s[k + 1] && s.skip(1)[k]
            != c);
        lemma_first_index_is_none(s.skip(1), c);
    }
}

/// A hit at `j` bounds the first index from above.
pub proof fn lemma_first_index_bounded(s: Seq<char>, c: char, j: int)
    requires
        0 <= j < s.len(),
        s[j] == c,
    ensures
        first_index_of(s, c) <= j,
    decreases j,
{
    if s[0] != c {
        assert(s.skip(1)[j - 1] == s[j]);
        lemma_first_index_bounded(s.skip(1), c, j - 1);
    }
}

/// The segments between dots, with a final empty segment dropped when
/// the text ends in a dot — the way a terminator-style split reads it.
pub open spec fn split_dots(s: Seq<char>) -> Seq<Seq<char>>
    decreases s.len(),
    via split_dots_decreases
{
    if s.len() == 0 {
        Seq::empty()
    } else {
        let j = first_index_of(s, '.');
        if j == s.len() {
            seq![s]
        } else {
            seq![s.take(j)] + split_dots(s.skip(j + 1))
        }
    }
}

proof fn lemma_first_index_bounds(s: Seq<char>, c: char)
    ensures
        0 <= first_index_of(s, c) <= s.len(),
    decreases s.len(),
{
    if s.len() > 0 && s[0] != c {
        lemma_first_index_bounds(s.skip(1), c);
    }
}

#[via_fn]
proof fn split_dots_decreases(s: Seq<char>) {
    if s.len() > 0 {
        lemma_first_index_bounds(s, '.');
    }
}

/// The file-name part of `p` starts after its last slash.
pub open spec fn file_start(p: Seq<char>) -> int {
    last_index_of(p, '/') + 1
}

/// Where `p`'s extension dot sits: the last dot, if it lies strictly
/// inside the file name; else -1.
pub open spec fn ext_dot(p: Seq<char>) -> int {
    let d = last_index_of(p, '.');
    if d > file_start(p) {
        d
    } else {
        -1
    }
}

/// `p` with its extension (if any) replaced by the data store's.
pub open spec fn with_yml_ext(p: Seq<char>) -> Seq<char> {
    let stem = if ext_dot(p) >= 0 {
        p.take(ext_dot(p))
    } else {
        p
    };
    stem + seq!['.', 'y', 'm', 'l']
}

/// `p` with its extension (if any) removed.
pub open spec fn without_ext(p: Seq<char>) -> Seq<char> {
    if ext_dot(p) >= 0 {
        p.take(ext_dot(p))
    } else {
        p
    }
}

/// Why a key path failed to parse.
#[derive(Debug, PartialEq, Eq, Structural)]
pub enum KeyPathParseError {
    /// No slash separates a file path from the keys.
    NoDelimiter,
    /// Nothing stands before the slash.
    NoPath,
}

/// Model of a parsed key path.
pub struct KeyPathModel {
    pub path: Seq<char>,
    pub key: Seq<Seq<char>>,
}

/// A parsed key path: the data-store file and the chain of keys.
#[derive(Debug)]
pub struct KeyPath {
    path: String,
    key: Vec<String>,
}

impl View for KeyPath {
    type V = KeyPathModel;

    closed spec fn view(&self) -> KeyPathModel {
        KeyPathModel { path: self.path@, key: self.key@.map_values(|k: String| k@) }
    }
}

/// How a text parses: everything up to the last slash, given the data
/// store's extension, and the dot-split remainder as keys. No slash is
/// an error, as is an empty part before it.
pub open spec fn spec_parse(s: Seq<char>) -> Result<KeyPathModel, KeyPathParseError> {
    let j = last_index_of(s, '/');
    if j < 0 {
        Err(KeyPathParseError::NoDelimiter)
    } else if j == 0 {
        Err(KeyPathParseError::NoPath)
    } else {
        Ok(KeyPathModel { path: with_yml_ext(s.take(j)), key: split_dots(s.skip(j + 1)) })
    }
}

fn split_dots_exec(s: &str) -> (r: Vec<String>)
    ensures
        r@.map_values(|k: String| k@) == split_dots(s@),
{
    let len: usize = s.unicode_len();
    let mut r: Vec<String> = Vec::new();
    let mut start: usize = 0;
    let mut i: usize = 0;
    proof {
        assert(s@.skip(0) =~= s@);
        assert(r@.map_values(|k: String| k@) =~= Seq::<Seq<char>>::empty());
        assert(Seq::<Seq<char>>::empty() + split_dots(s@) =~= split_dots(s@));
    }
    while i < len
        invariant
            0 <= start <= i <= len,
            len == s@.len(),
            split_dots(s@) =~= r@.map_values(|k: String| k@) + split_dots(s@.skip(start as int)),
            forall|k: int| start <= k < i ==> s@[k] != '.',
        decreases len - i,
    {
        if s.get_char(i) == '.' {
            let seg = s.substring_char(start, i);
            let ghost rest = s@.skip(start as int);
            proof {
                assert(rest.len() > 0);
                assert(rest[i - start] == s@[i as int]);
                assert(forall|k: int|
                    0 <= k < i - start ==> rest[k] == s@[k + start] && rest[k] != '.');
                lemma_first_index_is(rest, '.', i - start);
                assert(rest.take(i - start) =~= s@.subrange(start as int, i as int));
                assert(rest.skip(i - start + 1) =~= s@.skip(i + 1));
            }
            r.push(String::from_str(seg));
            proof {
                assert(r@.map_values(|k: String| k@) =~= r@.map_values(
                    |k: String| k@,
                ).drop_last().push(seg@));
            }
            start = i + 1;
        }
        i = i + 1;
    }
    if start < len {
        let seg = s.substring_char(start, len);
        let ghost rest = s@.skip(start as int);
        proof {
            assert(forall|k: int| 0 <= k < rest.len() ==> rest[k] == s@[k + start] && rest[k] != '.');
            lemma_first_index_is_none(rest, '.');
            assert(rest =~= s@.subrange(start as int, len as int));
        }
        r.push(String::from_str(seg));
        proof {
            assert(r@.map_values(|k: String| k@) =~= r@.map_values(
                |k: String| k@,
            ).drop_last().push(seg@));
            assert(split_dots(rest) =~= seq![rest]);
        }
    } else {
        proof {
            assert(s@.skip(start as int).len() == 0);
        }
    }
    proof {
        assert(r@.map_values(|k: String| k@) + Seq::<Seq<char>>::empty() =~= r@.map_values(
            |k: String| k@,
        ));
    }
    r
}

fn with_yml_ext_exec(p: &str) -> (r: String)
    ensures
        r@ == with_yml_ext(p@),
{
    let len: usize = p.unicode_len();
    let slash = find_last(p, '/');
    let dot = find_last(p, '.');
    let fstart: usize = match slash {
        Some(j) => j + 1,
        None => 0,
    };
    proof {
        assert(file_start(p@) == fstart as int);
    }
    let stem: &str = match dot {
        Some(d) => {
            if d > fstart {
                p.substring_char(0, d)
            } else {
                p
            }
        },
        None => p,
    };
    let mut r = String::from_str(stem);
    r.append(".yml");
    proof {
        reveal_strlit(".yml");
        assert(".yml"@ =~= seq!['.', 'y', 'm', 'l']);
        assert(r@ =~= with_yml_ext(p@));
    }
    r
}

impl KeyPath {
    /// Parse a key path. The part before the last slash names the file,
    /// with the data store's extension put on; the part after it splits
    /// at dots into the key chain. Fails with `NoDelimiter` when no
    /// slash occurs and with `NoPath` when nothing stands before it —
    /// exactly as the parse model says.
    pub fn parse(value: &str) -> (r: Result<KeyPath, KeyPathParseError>)
        ensures
            match r {
                Ok(kp) => spec_parse(value@) == Ok::<KeyPathModel, KeyPathParseError>(kp@),
                Err(e) => spec_parse(value@) == Err::<KeyPathModel, KeyPathParseError>(e),
            },
    {
        match find_last(value, '/') {
            None => Err(KeyPathParseError::NoDelimiter),
            Some(0) => Err(KeyPathParseError::NoPath),
            Some(j) => {
                let len: usize = value.unicode_len();
                let path_part = value.substring_char(0, j);
                let key_part = value.substring_char(j + 1, len);
                proof {
                    assert(path_part@ =~= value@.take(j as int));
                    assert(key_part@ =~= value@.skip(j + 1));
                }
                Ok(KeyPath { path: with_yml_ext_exec(path_part), key: split_dots_exec(key_part) })
            },
        }
    }

    /// The data-store file this key path reads.
    pub fn path(&self) -> (r: &String)
        ensures
            r@ == self@.path,
    {
        &self.path
    }

    /// The chain of keys, outermost first.
    pub fn key_vec(&self) -> (r: Vec<String>)
        ensures
            r@.map_values(|k: String| k@) == self@.key,
    {
        let n: usize = self.key.len();
        let mut r: Vec<String> = Vec::new();
        let mut i: usize = 0;
        while i < n
            invariant
                0 <= i <= n,
                n == self.key@.len(),
                r@ =~= self.key@.take(i as int),
            decreases n - i,
        {
            r.push(self.key[i].clone());
            assert(r@ =~= self.key@.take(i as int).push(self.key@[i as int]));
            assert(self.key@.take(i as int).push(self.key@[i as int]) =~= self.key@.take(i + 1));
            i = i + 1;
        }
        proof {
            assert(self.key@.take(n as int) =~= self.key@);
            assert(r@.map_values(|k: String| k@) =~= self.key@.map_values(|k: String| k@));
        }
        r
    }

    /// The text this key path displays as: the file without its
    /// extension, a slash, and the keys joined by dots.
    pub open spec fn spec_display(m: KeyPathModel) -> Seq<char> {
        without_ext(m.path) + seq!['/'] + join_dots(m.key)
    }

    /// Render the key path back to its textual form.
    pub fn display_string(&self) -> (r: String)
        ensures
            r@ == Self::spec_display(self@),
    {
        let mut r = with_ext_removed(&self.path);
        push_char(&mut r, '/');
        let n: usize = self.key.len();
        let mut i: usize = 0;
        while i < n
            invariant
                0 <= i <= n,
                n == self.key@.len(),
                r@ =~= without_ext(self@.path) + seq!['/'] + join_dots(
                    self@.key.take(i as int),
                ),
            decreases n - i,
        {
            if i > 0 {
                push_char(&mut r, '.');
            }
            r.append(self.key[i].as_str());
            proof {
                assert(self@.key.take(i + 1).drop_last() =~= self@.key.take(i as int));
                assert(self@.key.take(i + 1).last() == self@.key[i as int]);
                lemma_join_dots_step(self@.key, i as int);
                assert(self@.key[i as int] == self.key@[i as int]@);
            }
            i = i + 1;
        }
        proof {
            assert(self@.key.take(n as int) =~= self@.key);
        }
        r
    }
}

/// The key chain joined with dots.
pub open spec fn join_dots(segs: Seq<Seq<char>>) -> Seq<char>
    decreases segs.len(),
{
    if segs.len() == 0 {
        Seq::empty()
    } else if segs.len() == 1 {
        segs[0]
    } else {
        join_dots(segs.drop_last()) + seq!['.'] + segs.last()
    }
}

proof fn lemma_join_dots_step(segs: Seq<Seq<char>>, i: int)
    requires
        0 <= i < segs.len(),
    ensures
        i == 0 ==> join_dots(segs.take(i + 1)) =~= segs[0],
        i > 0 ==> join_dots(segs.take(i + 1)) =~= join_dots(segs.take(i)) + seq!['.'] + segs[i],
{
    if i == 0 {
        assert(segs.take(1).len() == 1);
        assert(segs.take(1)[0] == segs[0]);
    } else {
        assert(segs.take(i + 1).len() == i + 1);
        assert(segs.take(i + 1).drop_last() =~= segs.take(i));
        assert(segs.take(i + 1).last() == segs[i]);
    }
}

fn with_ext_removed(p: &String) -> (r: String)
    ensures
        r@ == without_ext(p@),
{
    let len: usize = p.as_str().unicode_len();
    let slash = find_last(p.as_str(), '/');
    let dot = find_last(p.as_str(), '.');
    let fstart: usize = match slash {
        Some(j) => j + 1,
        None => 0,
    };
    match dot {
        Some(d) => {
            if d > fstart {
                String::from_str(p.as_str().substring_char(0, d))
            } else {
                p.clone()
            }
        },
        None => p.clone(),
    }
}

} // verus!
