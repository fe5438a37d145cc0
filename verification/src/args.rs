//! The forms of the arguments that the command line takes: `key=value`
//! parameters, paths whose segments a colon parts, and the references to
//! images that are either uploaded or named by a path.

use vstd::prelude::*;
use vstd::string::{StrSliceExecFns, StringExecFns};

verus! {

/// Whether `i` is the first position of `s` that holds `c`.
pub open spec fn is_first(s: Seq<char>, c: char, i: int) -> bool {
    &&& 0 <= i < s.len()
    &&& s[i] == c
    &&& forall|j: int| 0 <= j < i ==> s[j] != c
}

/// The first position of `s` that holds `c`, where there is one.
pub open spec fn first_of(s: Seq<char>, c: char) -> int
    recommends
        s.contains(c),
{
    choose|i: int| is_first(s, c, i)
}

/// The segments `parts`, each but the last followed by `sep`.
pub open spec fn joined(parts: Seq<Seq<char>>, sep: char) -> Seq<char>
    decreases parts.len(),
{
    if parts.len() == 0 {
        Seq::empty()
    } else if parts.len() == 1 {
        parts[0]
    } else {
        joined(parts.drop_last(), sep) + seq![sep] + parts.last()
    }
}

/// The texts of `parts`.
pub open spec fn texts(parts: Seq<String>) -> Seq<Seq<char>> {
    parts.map_values(|p: String| p@)
}

/// Whether `parts` are the segments of `path`: none holds a colon, and
/// joined by colons they give `path`. A path has exactly one such sequence of
/// segments (`lemma_segments_unique`).
pub open spec fn is_split_of(parts: Seq<Seq<char>>, path: Seq<char>) -> bool {
    &&& parts.len() >= 1
    &&& forall|k: int| 0 <= k < parts.len() ==> !(#[trigger] parts[k]).contains(':')
    &&& joined(parts, ':') == path
}

/// The first position that holds a character is the only one that is first.
pub proof fn lemma_first_unique(s: Seq<char>, c: char, i: int)
    requires
        is_first(s, c, i),
    ensures
        s.contains(c),
        first_of(s, c) == i,
{
    let k = first_of(s, c);
    assert(is_first(s, c, k));
    if k < i {
        assert(s[k] == c);
    }
    if i < k {
        assert(s[i] == c);
    }
}

/// What joining does with one more segment at the end.
pub proof fn lemma_joined_push(parts: Seq<Seq<char>>, last: Seq<char>, sep: char)
    ensures
        joined(parts.push(last), sep) == (if parts.len() == 0 {
            last
        } else {
            joined(parts, sep) + seq![sep] + last
        }),
{
    assert(parts.push(last).drop_last() =~= parts);
}

/// Where two sequences of segments without `sep` give the same text when
/// joined, the last `sep` of the text stands before the last segment of
/// each: the last segments have the same length.
proof fn lemma_last_segment(a: Seq<Seq<char>>, b: Seq<Seq<char>>, sep: char)
    requires
        a.len() >= 2,
        b.len() >= 1,
        !a.last().contains(sep),
        !b.last().contains(sep),
        joined(a, sep) == joined(b, sep),
    ensures
        b.len() >= 2,
        a.last().len() == b.last().len(),
{
    let text = joined(a, sep);
    let p = joined(a.drop_last(), sep).len() as int;
    assert(text == joined(a.drop_last(), sep) + seq![sep] + a.last());
    assert(text.len() == p + 1 + a.last().len());
    assert(text[p] == sep);
    if b.len() == 1 {
        assert(b.last() == text);
        assert(b.last()[p] == sep);
        assert(b.last().contains(sep));
    } else {
        let q = joined(b.drop_last(), sep).len() as int;
        assert(text == joined(b.drop_last(), sep) + seq![sep] + b.last());
        assert(text.len() == q + 1 + b.last().len());
        assert(text[q] == sep);
        if p < q {
            assert(a.last()[q - p - 1] == text[q]);
            assert(a.last().contains(sep));
        }
        if q < p {
            assert(b.last()[p - q - 1] == text[p]);
            assert(b.last().contains(sep));
        }
    }
}

/// A text has one sequence of segments only: two sequences of segments
/// without `sep` that give the same text when joined are the same.
pub proof fn lemma_segments_unique(a: Seq<Seq<char>>, b: Seq<Seq<char>>, sep: char)
    requires
        a.len() >= 1,
        b.len() >= 1,
        forall|k: int| 0 <= k < a.len() ==> !(#[trigger] a[k]).contains(sep),
        forall|k: int| 0 <= k < b.len() ==> !(#[trigger] b[k]).contains(sep),
        joined(a, sep) == joined(b, sep),
    ensures
        a == b,
    decreases a.len(),
{
    if a.len() == 1 && b.len() == 1 {
        assert(a =~= b);
    } else if a.len() == 1 {
        lemma_last_segment(b, a, sep);
    } else {
        lemma_last_segment(a, b, sep);
        let text = joined(a, sep);
        let a0 = a.drop_last();
        let b0 = b.drop_last();
        let p = joined(a0, sep).len() as int;
        assert(text == joined(a0, sep) + seq![sep] + a.last());
        assert(text == joined(b0, sep) + seq![sep] + b.last());
        assert(text.len() == p + 1 + a.last().len());
        assert(text.len() == joined(b0, sep).len() + 1 + b.last().len());
        assert(joined(b0, sep).len() == p);
        assert(a.last() =~= text.skip(p + 1));
        assert(b.last() =~= text.skip(p + 1));
        assert(joined(a0, sep) =~= text.take(p));
        assert(joined(b0, sep) =~= text.take(p));
        assert forall|k: int| 0 <= k < a0.len() implies !(#[trigger] a0[k]).contains(sep) by {
            assert(a0[k] == a[k]);
        }
        assert forall|k: int| 0 <= k < b0.len() implies !(#[trigger] b0[k]).contains(sep) by {
            assert(b0[k] == b[k]);
        }
        lemma_segments_unique(a0, b0, sep);
        assert(a =~= a0.push(a.last()));
        assert(b =~= b0.push(b.last()));
    }
}

/// An image that a command names: a local file to upload, or a path in the
/// remote store.
#[derive(Debug, PartialEq, Eq)]
pub enum ImageRef {
    /// The local file of this name is uploaded.
    Upload(String),
    /// The image stands at this path, given by its segments.
    Path(Vec<String>),
}

/// The label of an entry that is made without one.
pub const DEFAULT_LABEL: &'static str = "T,T";

/// The function that serves the file-system commands of the caller.
pub const OWN_FSUTIL: &'static str = "~:fsutil";

/// What is said of a parameter that is not of the form `key=value`.
pub const PARAM_FORM: &'static str = "argument must be of the form key=value";

/// Parts a parameter at its first `=` into key and value. A parameter without
/// `=` is refused.
pub fn param_valid(s: &str) -> (r: Result<(String, String), String>)
    ensures
        match r {
            Ok((key, value)) => {
                &&& s@.contains('=')
                &&& key@ == s@.take(first_of(s@, '='))
                &&& value@ == s@.skip(first_of(s@, '=') + 1)
            },
            Err(message) => !s@.contains('=') && message@ == PARAM_FORM@,
        },
{
    let n: usize = s.unicode_len();
    let mut i: usize = 0;
    while i < n
        invariant
            i <= n,
            n == s@.len(),
            forall|j: int| 0 <= j < i ==> s@[j] != '=',
        decreases n - i,
    {
        if s.get_char(i) == '=' {
            proof {
                lemma_first_unique(s@, '=', i as int);
            }
            let key = String::from_str(s.substring_char(0, i));
            let value = String::from_str(s.substring_char(i + 1, n));
            return Ok((key, value));
        }
        i += 1;
    }
    Err(String::from_str(PARAM_FORM))
}

/// The segments of a path: what stands between its colons.
pub fn split_path(path: &str) -> (parts: Vec<String>)
    ensures
        is_split_of(texts(parts@), path@),
{
    let n: usize = path.unicode_len();
    let mut parts: Vec<String> = Vec::new();
    let mut start: usize = 0;
    let mut i: usize = 0;
    proof {
        lemma_joined_push(texts(parts@), path@.subrange(0, 0), ':');
        assert(path@.subrange(0, 0) =~= path@.take(0));
    }
    while i < n
        invariant
            start <= i <= n,
            n == path@.len(),
            forall|k: int|
                0 <= k < parts@.len() ==> !(#[trigger] texts(parts@)[k]).contains(':'),
            forall|j: int| start <= j < i ==> path@[j] != ':',
            joined(texts(parts@).push(path@.subrange(start as int, i as int)), ':') == path@.take(
                i as int,
            ),
        decreases n - i,
    {
        let ghost before = texts(parts@);
        let ghost segment = path@.subrange(start as int, i as int);
        proof {
            lemma_joined_push(before, segment, ':');
        }
        if path.get_char(i) == ':' {
            parts.push(String::from_str(path.substring_char(start, i)));
            start = i + 1;
            proof {
                let after = texts(parts@);
                let empty = path@.subrange(start as int, start as int);
                assert(after =~= before.push(segment));
                assert(!segment.contains(':'));
                lemma_joined_push(after, empty, ':');
                assert(joined(after, ':') + seq![':'] + empty =~= path@.take(i as int + 1));
            }
        } else {
            proof {
                let longer = path@.subrange(start as int, i as int + 1);
                lemma_joined_push(before, longer, ':');
                assert(longer =~= segment.push(path@[i as int]));
                if before.len() == 0 {
                    assert(longer =~= path@.take(i as int + 1));
                } else {
                    assert(joined(before, ':') + seq![':'] + longer =~= (joined(before, ':')
                        + seq![':'] + segment).push(path@[i as int]));
                    assert(path@.take(i as int).push(path@[i as int]) =~= path@.take(
                        i as int + 1,
                    ));
                }
            }
        }
        i += 1;
    }
    let ghost before = texts(parts@);
    let ghost segment = path@.subrange(start as int, n as int);
    parts.push(String::from_str(path.substring_char(start, n)));
    proof {
        assert(texts(parts@) =~= before.push(segment));
        assert(!segment.contains(':'));
        assert(path@.take(n as int) =~= path@);
    }
    parts
}

/// Reads a reference to an image: one that begins with `@` names the local
/// file that follows the `@`; any other is a path.
pub fn image_ref(arg: &str) -> (r: ImageRef)
    ensures
        match r {
            ImageRef::Upload(file) => {
                &&& arg@.len() > 0
                &&& arg@[0] == '@'
                &&& file@ == arg@.skip(1)
            },
            ImageRef::Path(parts) => {
                &&& arg@.len() == 0 || arg@[0] != '@'
                &&& is_split_of(texts(parts@), arg@)
            },
        },
{
    let n: usize = arg.unicode_len();
    if n > 0 && arg.get_char(0) == '@' {
        ImageRef::Upload(String::from_str(arg.substring_char(1, n)))
    } else {
        ImageRef::Path(split_path(arg))
    }
}

/// The label to make an entry with: the one given, or the default.
pub fn label_or_default(label: Option<String>) -> (r: String)
    ensures
        r@ == (match label {
            Some(given) => given@,
            None => DEFAULT_LABEL@,
        }),
{
    match label {
        Some(given) => given,
        None => String::from_str(DEFAULT_LABEL),
    }
}

/// The function that serves the file-system commands: the caller's own, or,
/// for a caller that masquerades as `user`, the one in the home of `user`.
pub fn fsutil_function(masquerade: Option<&str>) -> (r: String)
    ensures
        r@ == (match masquerade {
            Some(user) => "home:<"@ + user@ + ","@ + user@ + ">:fsutil"@,
            None => OWN_FSUTIL@,
        }),
{
    match masquerade {
        Some(user) => String::from_str("home:<").concat(user).concat(",").concat(user).concat(
            ">:fsutil",
        ),
        None => String::from_str(OWN_FSUTIL),
    }
}

} // verus!
