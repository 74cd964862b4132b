//! Text as sequences of characters: splitting, trimming and reading numbers.
use vstd::prelude::*;
use vstd::slice::slice_subrange;
use vstd::string::*;

verus! {

broadcast use vstd::string::group_string_axioms;

/// Appends one character to a string. Claims of `String::push` that the
/// string afterwards is the string before with the character at its end.
pub assume_specification [String::push](s: &mut String, c: char)
    ensures
        final(s)@ == old(s)@.push(c),
;

/// A path as `{:?}` writes it: in double quotes, with escapes.
pub uninterp spec fn debug_text(path: Seq<char>) -> Seq<char>;

/// Writes a path as `{:?}` does. Claims of `format!` with `{:?}` on a
/// `std::path::Path` only that the result depends on nothing but the path.
#[verifier::external_body]
pub(crate) fn debug_path(path: &str) -> (r: String)
    ensures
        r@ == debug_text(path@),
{
    format!("{:?}", std::path::Path::new(path))
}

/// Bytes as text, with what is not valid UTF-8 replaced.
pub uninterp spec fn lossy_text(bytes: Seq<u8>) -> Seq<char>;

/// Bytes as text. Claims of `String::from_utf8_lossy` that the result depends
/// on nothing but the bytes, and that valid UTF-8 comes out as the text that
/// it encodes.
#[verifier::external_body]
pub(crate) fn utf8_lossy(bytes: &Vec<u8>) -> (r: String)
    ensures
        r@ == lossy_text(bytes@),
        vstd::utf8::valid_utf8(bytes@) ==> vstd::utf8::encode_utf8(r@) == bytes@,
{
    String::from_utf8_lossy(bytes.as_slice()).into_owned()
}

/// The characters with the Unicode property `White_Space`.
pub open spec fn is_space(c: char) -> bool {
    ||| '\u{9}' <= c <= '\u{d}'
    ||| c == ' '
    ||| c == '\u{85}'
    ||| c == '\u{a0}'
    ||| c == '\u{1680}'
    ||| '\u{2000}' <= c <= '\u{200a}'
    ||| c == '\u{2028}'
    ||| c == '\u{2029}'
    ||| c == '\u{202f}'
    ||| c == '\u{205f}'
    ||| c == '\u{3000}'
}

/// Whether `c` is white space.
pub fn is_whitespace(c: char) -> (r: bool)
    ensures
        r == is_space(c),
{
    ('\u{9}' <= c && c <= '\u{d}') || c == ' ' || c == '\u{85}' || c == '\u{a0}' || c == '\u{1680}'
        || ('\u{2000}' <= c && c <= '\u{200a}') || c == '\u{2028}' || c == '\u{2029}' || c
        == '\u{202f}' || c == '\u{205f}' || c == '\u{3000}'
}

/// The pieces of text that a vector of slices stands for.
pub open spec fn views(v: Seq<&[char]>) -> Seq<Seq<char>> {
    Seq::new(v.len(), |i: int| v[i]@)
}

/// The texts that a vector of strings stands for.
pub open spec fn texts(v: Seq<String>) -> Seq<Seq<char>> {
    Seq::new(v.len(), |i: int| v[i]@)
}

/// The characters of a string, in order.
pub fn chars_of(s: &str) -> (r: Vec<char>)
    ensures
        r@ == s@,
{
    let mut out: Vec<char> = Vec::new();
    for c in it: s.chars()
        invariant
            out@ == it.seq().take(it.index()),
            it.seq() == s@,
    {
        out.push(c);
    }
    out
}

/// The string made of the given characters.
pub fn string_of(s: &[char]) -> (r: String)
    ensures
        r@ == s@,
{
    let mut out = String::new();
    let mut i: usize = 0;
    while i < s.len()
        invariant
            i <= s@.len(),
            out@ == s@.take(i as int),
        decreases s@.len() - i,
    {
        out.push(s[i]);
        i = i + 1;
    }
    out
}


/// Whether two texts are the same.
pub fn same(a: &[char], b: &[char]) -> (r: bool)
    ensures
        r == (a@ == b@),
{
    if a.len() != b.len() {
        return false;
    }
    let mut i: usize = 0;
    while i < a.len()
        invariant
            i <= a@.len() == b@.len(),
            forall|k: int| 0 <= k < i ==> a@[k] == b@[k],
        decreases a@.len() - i,
    {
        if a[i] != b[i] {
            return false;
        }
        i = i + 1;
    }
    assert(a@ =~= b@);
    true
}

/// Whether a text is the given string.
pub fn is_text(a: &[char], b: &str) -> (r: bool)
    ensures
        r == (a@ == b@),
{
    let chars = chars_of(b);
    same(a, chars.as_slice())
}

/// Whether two strings are the same.
pub fn same_str(a: &str, b: &str) -> (r: bool)
    ensures
        r == (a@ == b@),
{
    let left = chars_of(a);
    is_text(left.as_slice(), b)
}

/// Whether `text` begins with `prefix`.
pub open spec fn begins(text: Seq<char>, prefix: Seq<char>) -> bool {
    text.len() >= prefix.len() && text.take(prefix.len() as int) == prefix
}

/// Whether `text` ends with `suffix`.
pub open spec fn ends(text: Seq<char>, suffix: Seq<char>) -> bool {
    text.len() >= suffix.len() && text.skip(text.len() - suffix.len()) == suffix
}

/// Whether `text` begins with `prefix`.
pub fn starts_with(text: &[char], prefix: &str) -> (r: bool)
    ensures
        r == begins(text@, prefix@),
{
    let p = chars_of(prefix);
    if text.len() < p.len() {
        return false;
    }
    let head = slice_subrange(text, 0, p.len());
    assert(head@ == text@.take(p@.len() as int));
    same(head, p.as_slice())
}

/// Whether `text` ends with `suffix`.
pub fn ends_with(text: &[char], suffix: &str) -> (r: bool)
    ensures
        r == ends(text@, suffix@),
{
    let p = chars_of(suffix);
    if text.len() < p.len() {
        return false;
    }
    let tail = slice_subrange(text, text.len() - p.len(), text.len());
    assert(tail@ == text@.skip(text@.len() - p@.len()));
    same(tail, p.as_slice())
}

/// What follows `prefix` in `text`, where `text` begins with it.
pub open spec fn after_prefix(text: Seq<char>, prefix: Seq<char>) -> Option<Seq<char>> {
    if begins(text, prefix) {
        Some(text.skip(prefix.len() as int))
    } else {
        None
    }
}

/// What precedes `suffix` in `text`, where `text` ends with it.
pub open spec fn before_suffix(text: Seq<char>, suffix: Seq<char>) -> Option<Seq<char>> {
    if ends(text, suffix) {
        Some(text.take(text.len() - suffix.len()))
    } else {
        None
    }
}

/// The text that an optional slice stands for.
pub open spec fn opt_view(s: Option<&[char]>) -> Option<Seq<char>> {
    match s {
        Some(t) => Some(t@),
        None => None,
    }
}

/// The text that an optional string stands for.
pub open spec fn opt_text(s: Option<String>) -> Option<Seq<char>> {
    match s {
        Some(t) => Some(t@),
        None => None,
    }
}

/// What follows `prefix` in `text`, where `text` begins with it.
pub fn strip_prefix<'a>(text: &'a [char], prefix: &str) -> (r: Option<&'a [char]>)
    ensures
        opt_view(r) == after_prefix(text@, prefix@),
{
    let p = chars_of(prefix);
    if starts_with(text, prefix) {
        let rest = slice_subrange(text, p.len(), text.len());
        assert(rest@ == text@.skip(p@.len() as int));
        Some(rest)
    } else {
        None
    }
}

/// What precedes `suffix` in `text`, where `text` ends with it.
pub fn strip_suffix<'a>(text: &'a [char], suffix: &str) -> (r: Option<&'a [char]>)
    ensures
        opt_view(r) == before_suffix(text@, suffix@),
{
    let p = chars_of(suffix);
    if ends_with(text, suffix) {
        let rest = slice_subrange(text, 0, text.len() - p.len());
        assert(rest@ == text@.take(text@.len() - p@.len()));
        Some(rest)
    } else {
        None
    }
}

/// The same strings again.
pub fn copy_strings(v: &Vec<String>) -> (r: Vec<String>)
    ensures
        texts(r@) == texts(v@),
{
    let mut out: Vec<String> = Vec::new();
    let mut i: usize = 0;
    while i < v.len()
        invariant
            i <= v@.len(),
            texts(out@) == texts(v@).take(i as int),
        decreases v@.len() - i,
    {
        let ghost before = texts(out@);
        out.push(v[i].as_str().to_owned());
        assert(texts(out@) =~= before.push(v@[i as int]@));
        assert(texts(v@).take(i + 1) =~= before.push(v@[i as int]@));
        i = i + 1;
    }
    assert(texts(v@).take(i as int) =~= texts(v@));
    out
}

// ---------------------------------------------------------------------------
// Splitting
// ---------------------------------------------------------------------------

/// The pieces of `s` between the characters that satisfy `sep`: one piece
/// more than there are such characters, the empty ones included.
pub open spec fn split_where(s: Seq<char>, sep: spec_fn(char) -> bool) -> Seq<Seq<char>>
    decreases s.len(),
{
    if s.len() == 0 {
        seq![Seq::<char>::empty()]
    } else {
        let before = split_where(s.drop_last(), sep);
        if sep(s.last()) {
            before.push(Seq::<char>::empty())
        } else {
            before.drop_last().push(before.last().push(s.last()))
        }
    }
}

/// The test for one separator character.
pub open spec fn is_char(sep: char) -> spec_fn(char) -> bool {
    |c: char| c == sep
}

/// The pieces of `s` between occurrences of `sep`.
pub open spec fn pieces(s: Seq<char>, sep: char) -> Seq<Seq<char>> {
    split_where(s, is_char(sep))
}

/// The pieces that are not empty, in order.
pub open spec fn nonempty(p: Seq<Seq<char>>) -> Seq<Seq<char>>
    decreases p.len(),
{
    if p.len() == 0 {
        p
    } else if p.last().len() == 0 {
        nonempty(p.drop_last())
    } else {
        nonempty(p.drop_last()).push(p.last())
    }
}

/// The words of `s`: its longest runs of characters that are not white space.
pub open spec fn words(s: Seq<char>) -> Seq<Seq<char>> {
    nonempty(split_where(s, |c: char| is_space(c)))
}

/// A line without the carriage return that its line feed left at the end.
pub open spec fn without_return(line: Seq<char>) -> Seq<char> {
    if line.len() > 0 && line.last() == '\r' {
        line.drop_last()
    } else {
        line
    }
}

/// The lines of `s`. A line ends with a line feed, or with a carriage return
/// and a line feed; the last one may lack its ending.
pub open spec fn lines(s: Seq<char>) -> Seq<Seq<char>> {
    let p = pieces(s, '\n');
    let ended = p.drop_last().map_values(|l: Seq<char>| without_return(l));
    if p.last().len() == 0 {
        ended
    } else {
        ended.push(p.last())
    }
}

/// Splitting always gives at least one piece.
pub proof fn lemma_split_nonempty(s: Seq<char>, sep: spec_fn(char) -> bool)
    ensures
        split_where(s, sep).len() >= 1,
    decreases s.len(),
{
    if s.len() > 0 {
        lemma_split_nonempty(s.drop_last(), sep);
    }
}

/// One step of splitting: the pieces of one character more.
proof fn lemma_split_step(s: Seq<char>, sep: spec_fn(char) -> bool, i: int)
    requires
        0 <= i < s.len(),
    ensures
        split_where(s.take(i + 1), sep) == if sep(s[i]) {
            split_where(s.take(i), sep).push(Seq::<char>::empty())
        } else {
            let before = split_where(s.take(i), sep);
            before.drop_last().push(before.last().push(s[i]))
        },
{
    assert(s.take(i + 1).drop_last() =~= s.take(i));
    assert(s.take(i + 1).last() == s[i]);
}

/// The pieces of `s` between occurrences of `sep`.
pub fn split_on<'a>(s: &'a [char], sep: char) -> (r: Vec<&'a [char]>)
    ensures
        views(r@) == pieces(s@, sep),
        r@.len() >= 1,
{
    let ghost p = is_char(sep);
    let mut out: Vec<&'a [char]> = Vec::new();
    let mut start: usize = 0;
    let mut i: usize = 0;
    proof {
        assert(s@.take(0) =~= Seq::<char>::empty());
        assert(s@.subrange(0, 0) =~= Seq::<char>::empty());
        assert(views(out@).push(s@.subrange(0, 0)) =~= split_where(s@.take(0), p));
    }
    while i < s.len()
        invariant
            start <= i <= s@.len(),
            p == is_char(sep),
            split_where(s@.take(i as int), p) == views(out@).push(
                s@.subrange(start as int, i as int),
            ),
        decreases s@.len() - i,
    {
        proof {
            lemma_split_step(s@, p, i as int);
        }
        if s[i] == sep {
            let ghost before = views(out@);
            let ghost from: int = start as int;
            out.push(slice_subrange(s, start, i));
            start = i + 1;
            assert(views(out@) =~= before.push(s@.subrange(from, i as int)));
            assert(s@.subrange(start as int, i + 1) =~= Seq::<char>::empty());
        } else {
            assert(s@.subrange(start as int, i + 1) =~= s@.subrange(start as int, i as int).push(s@[i as int]));
            assert(views(out@).push(s@.subrange(start as int, i as int)).drop_last() =~= views(out@));
        }
        i = i + 1;
    }
    assert(s@.take(i as int) =~= s@);
    let ghost before = views(out@);
    out.push(slice_subrange(s, start, s.len()));
    assert(views(out@) =~= before.push(s@.subrange(start as int, i as int)));
    out
}

/// The pieces of `s` between white space characters.
fn split_spaces<'a>(s: &'a [char]) -> (r: Vec<&'a [char]>)
    ensures
        views(r@) == split_where(s@, |c: char| is_space(c)),
{
    let ghost p = |c: char| is_space(c);
    let mut out: Vec<&'a [char]> = Vec::new();
    let mut start: usize = 0;
    let mut i: usize = 0;
    proof {
        assert(s@.take(0) =~= Seq::<char>::empty());
        assert(s@.subrange(0, 0) =~= Seq::<char>::empty());
        assert(views(out@).push(s@.subrange(0, 0)) =~= split_where(s@.take(0), p));
    }
    while i < s.len()
        invariant
            start <= i <= s@.len(),
            p == (|c: char| is_space(c)),
            split_where(s@.take(i as int), p) == views(out@).push(
                s@.subrange(start as int, i as int),
            ),
        decreases s@.len() - i,
    {
        proof {
            lemma_split_step(s@, p, i as int);
        }
        if is_whitespace(s[i]) {
            let ghost before = views(out@);
            let ghost from: int = start as int;
            out.push(slice_subrange(s, start, i));
            start = i + 1;
            assert(views(out@) =~= before.push(s@.subrange(from, i as int)));
            assert(s@.subrange(start as int, i + 1) =~= Seq::<char>::empty());
        } else {
            assert(s@.subrange(start as int, i + 1) =~= s@.subrange(start as int, i as int).push(s@[i as int]));
            assert(views(out@).push(s@.subrange(start as int, i as int)).drop_last() =~= views(out@));
        }
        i = i + 1;
    }
    assert(s@.take(i as int) =~= s@);
    let ghost before = views(out@);
    out.push(slice_subrange(s, start, s.len()));
    assert(views(out@) =~= before.push(s@.subrange(start as int, i as int)));
    out
}

/// The pieces of `s` between characters that are no digits.
pub fn split_nondigits<'a>(s: &'a [char]) -> (r: Vec<&'a [char]>)
    ensures
        views(r@) == split_where(s@, |c: char| !is_digit(c)),
{
    let ghost p = |c: char| !is_digit(c);
    let mut out: Vec<&'a [char]> = Vec::new();
    let mut start: usize = 0;
    let mut i: usize = 0;
    proof {
        assert(s@.take(0) =~= Seq::<char>::empty());
        assert(s@.subrange(0, 0) =~= Seq::<char>::empty());
        assert(views(out@).push(s@.subrange(0, 0)) =~= split_where(s@.take(0), p));
    }
    while i < s.len()
        invariant
            start <= i <= s@.len(),
            p == (|c: char| !is_digit(c)),
            split_where(s@.take(i as int), p) == views(out@).push(
                s@.subrange(start as int, i as int),
            ),
        decreases s@.len() - i,
    {
        proof {
            lemma_split_step(s@, p, i as int);
        }
        if s[i] < '0' || s[i] > '9' {
            let ghost before = views(out@);
            let ghost from: int = start as int;
            out.push(slice_subrange(s, start, i));
            start = i + 1;
            assert(views(out@) =~= before.push(s@.subrange(from, i as int)));
            assert(s@.subrange(start as int, i + 1) =~= Seq::<char>::empty());
        } else {
            assert(s@.subrange(start as int, i + 1) =~= s@.subrange(start as int, i as int).push(s@[i as int]));
            assert(views(out@).push(s@.subrange(start as int, i as int)).drop_last() =~= views(out@));
        }
        i = i + 1;
    }
    assert(s@.take(i as int) =~= s@);
    let ghost before = views(out@);
    out.push(slice_subrange(s, start, s.len()));
    assert(views(out@) =~= before.push(s@.subrange(start as int, i as int)));
    out
}

/// The words of `s`.
pub fn split_words<'a>(s: &'a [char]) -> (r: Vec<&'a [char]>)
    ensures
        views(r@) == words(s@),
{
    let all = split_spaces(s);
    let mut out: Vec<&'a [char]> = Vec::new();
    let mut i: usize = 0;
    while i < all.len()
        invariant
            i <= all@.len(),
            views(out@) == nonempty(views(all@).take(i as int)),
        decreases all@.len() - i,
    {
        assert(views(all@).take(i + 1).drop_last() =~= views(all@).take(i as int));
        let piece = all[i];
        if piece.len() > 0 {
            let ghost before = views(out@);
            out.push(piece);
            assert(views(out@) =~= before.push(piece@));
        }
        i = i + 1;
    }
    assert(views(all@).take(i as int) =~= views(all@));
    out
}

/// The lines of `s`.
pub fn split_lines<'a>(s: &'a [char]) -> (r: Vec<&'a [char]>)
    ensures
        views(r@) == lines(s@),
{
    let all = split_on(s, '\n');
    let ghost p = views(all@);
    let mut out: Vec<&'a [char]> = Vec::new();
    let mut i: usize = 0;
    let last: usize = all.len() - 1;
    while i < last
        invariant
            i <= last,
            last == all@.len() - 1,
            p == views(all@),
            views(out@) == p.take(i as int).map_values(|l: Seq<char>| without_return(l)),
        decreases last - i,
    {
        let line = all[i];
        let ghost before = views(out@);
        let n: usize = line.len();
        let kept = if n > 0 && line[n - 1] == '\r' {
            slice_subrange(line, 0, n - 1)
        } else {
            line
        };
        assert(kept@ =~= without_return(p[i as int]));
        out.push(kept);
        assert(views(out@) =~= before.push(kept@));
        assert(p.take(i + 1).map_values(|l: Seq<char>| without_return(l)) =~= before.push(
            without_return(p[i as int]),
        ));
        i = i + 1;
    }
    assert(p.take(i as int) =~= p.drop_last());
    if all[last].len() > 0 {
        let ghost before = views(out@);
        out.push(all[last]);
        assert(views(out@) =~= before.push(p.last()));
    }
    out
}

// ---------------------------------------------------------------------------
// Trimming and searching
// ---------------------------------------------------------------------------

/// `s` without the white space at its start.
pub open spec fn trimmed_start(s: Seq<char>) -> Seq<char>
    decreases s.len(),
{
    if s.len() > 0 && is_space(s[0]) {
        trimmed_start(s.skip(1))
    } else {
        s
    }
}

/// `s` without the white space at its end.
pub open spec fn trimmed_end(s: Seq<char>) -> Seq<char>
    decreases s.len(),
{
    if s.len() > 0 && is_space(s.last()) {
        trimmed_end(s.drop_last())
    } else {
        s
    }
}

/// `s` without the white space at either end.
pub open spec fn trimmed(s: Seq<char>) -> Seq<char> {
    trimmed_end(trimmed_start(s))
}

/// `s` without the white space at its start.
pub fn trim_start<'a>(s: &'a [char]) -> (r: &'a [char])
    ensures
        r@ == trimmed_start(s@),
{
    let mut i: usize = 0;
    assert(s@.skip(0) =~= s@);
    while i < s.len() && is_whitespace(s[i])
        invariant
            i <= s@.len(),
            trimmed_start(s@.skip(i as int)) == trimmed_start(s@),
        decreases s@.len() - i,
    {
        assert(s@.skip(i as int).skip(1) =~= s@.skip(i + 1));
        i = i + 1;
    }
    assert(s@.subrange(i as int, s@.len() as int) =~= s@.skip(i as int));
    slice_subrange(s, i, s.len())
}

/// `s` without the white space at its end.
pub fn trim_end<'a>(s: &'a [char]) -> (r: &'a [char])
    ensures
        r@ == trimmed_end(s@),
{
    let mut n: usize = s.len();
    assert(s@.take(n as int) =~= s@);
    while n > 0 && is_whitespace(s[n - 1])
        invariant
            n <= s@.len(),
            trimmed_end(s@.take(n as int)) == trimmed_end(s@),
        decreases n,
    {
        assert(s@.take(n as int).drop_last() =~= s@.take(n - 1));
        n = n - 1;
    }
    assert(s@.subrange(0, n as int) =~= s@.take(n as int));
    slice_subrange(s, 0, n)
}

/// `s` without the white space at either end.
pub fn trim<'a>(s: &'a [char]) -> (r: &'a [char])
    ensures
        r@ == trimmed(s@),
{
    trim_end(trim_start(s))
}

/// Where `c` first stands in `s`; the length of `s` where it does not.
pub open spec fn first_at(s: Seq<char>, c: char) -> int
    decreases s.len(),
{
    if s.len() == 0 || s[0] == c {
        0
    } else {
        1 + first_at(s.skip(1), c)
    }
}

/// Where `c` last stands in `s`; -1 where it does not.
pub open spec fn last_at(s: Seq<char>, c: char) -> int
    decreases s.len(),
{
    if s.len() == 0 {
        -1
    } else if s.last() == c {
        s.len() - 1
    } else {
        last_at(s.drop_last(), c)
    }
}

/// What `first_at` says: nothing before it is `c`, and it is `c` itself.
pub proof fn lemma_first_at(s: Seq<char>, c: char)
    ensures
        0 <= first_at(s, c) <= s.len(),
        first_at(s, c) < s.len() ==> s[first_at(s, c)] == c,
        forall|k: int| 0 <= k < first_at(s, c) ==> s[k] != c,
    decreases s.len(),
{
    if s.len() > 0 && s[0] != c {
        lemma_first_at(s.skip(1), c);
        assert forall|k: int| 0 <= k < first_at(s, c) implies s[k] != c by {
            if k > 0 {
                assert(s[k] == s.skip(1)[k - 1]);
            }
        }
    }
}

/// What `last_at` says: nothing after it is `c`, and it is `c` itself.
pub proof fn lemma_last_at(s: Seq<char>, c: char)
    ensures
        -1 <= last_at(s, c) < s.len(),
        last_at(s, c) >= 0 ==> s[last_at(s, c)] == c,
        forall|k: int| last_at(s, c) < k < s.len() ==> s[k] != c,
    decreases s.len(),
{
    if s.len() > 0 && s.last() != c {
        lemma_last_at(s.drop_last(), c);
        assert forall|k: int| last_at(s, c) < k < s.len() implies s[k] != c by {
            if k < s.len() - 1 {
                assert(s[k] == s.drop_last()[k]);
            }
        }
    }
}

/// Where `c` first stands in `s`.
pub fn find_char(s: &[char], c: char) -> (r: Option<usize>)
    ensures
        match r {
            Some(i) => i == first_at(s@, c) && i < s@.len(),
            None => first_at(s@, c) == s@.len(),
        },
{
    proof {
        lemma_first_at(s@, c);
    }
    let mut i: usize = 0;
    while i < s.len()
        invariant
            i <= s@.len(),
            i <= first_at(s@, c) <= s@.len(),
            first_at(s@, c) < s@.len() ==> s@[first_at(s@, c)] == c,
            forall|k: int| 0 <= k < first_at(s@, c) ==> s@[k] != c,
        decreases s@.len() - i,
    {
        if s[i] == c {
            return Some(i);
        }
        i = i + 1;
    }
    None
}

/// Where `c` last stands in `s`.
pub fn rfind_char(s: &[char], c: char) -> (r: Option<usize>)
    ensures
        match r {
            Some(i) => i == last_at(s@, c) && i < s@.len(),
            None => last_at(s@, c) == -1,
        },
{
    proof {
        lemma_last_at(s@, c);
    }
    let mut n: usize = s.len();
    while n > 0
        invariant
            n <= s@.len(),
            -1 <= last_at(s@, c) < n,
            last_at(s@, c) >= 0 ==> s@[last_at(s@, c)] == c,
            forall|k: int| last_at(s@, c) < k < s@.len() ==> s@[k] != c,
        decreases n,
    {
        if s[n - 1] == c {
            return Some(n - 1);
        }
        n = n - 1;
    }
    None
}

/// The two parts of `s` around the first `c`.
pub open spec fn parted(s: Seq<char>, c: char) -> Option<(Seq<char>, Seq<char>)> {
    let i = first_at(s, c);
    if i < s.len() {
        Some((s.take(i), s.skip(i + 1)))
    } else {
        None
    }
}

/// The two parts of `s` around the last `c`.
pub open spec fn rparted(s: Seq<char>, c: char) -> Option<(Seq<char>, Seq<char>)> {
    let i = last_at(s, c);
    if i >= 0 {
        Some((s.take(i), s.skip(i + 1)))
    } else {
        None
    }
}

/// The texts that an optional pair of slices stands for.
pub open spec fn opt_pair(p: Option<(&[char], &[char])>) -> Option<(Seq<char>, Seq<char>)> {
    match p {
        Some((a, b)) => Some((a@, b@)),
        None => None,
    }
}

/// The two parts of `s` around the first `c`.
pub fn split_once<'a>(s: &'a [char], c: char) -> (r: Option<(&'a [char], &'a [char])>)
    ensures
        opt_pair(r) == parted(s@, c),
{
    match find_char(s, c) {
        Some(i) => {
            assert(s@.subrange(0, i as int) =~= s@.take(i as int));
            assert(s@.subrange(i + 1, s@.len() as int) =~= s@.skip(i + 1));
            let end: usize = s.len();
            Some((slice_subrange(s, 0, i), slice_subrange(s, i + 1, end)))
        },
        None => None,
    }
}

/// The two parts of `s` around the last `c`.
pub fn rsplit_once<'a>(s: &'a [char], c: char) -> (r: Option<(&'a [char], &'a [char])>)
    ensures
        opt_pair(r) == rparted(s@, c),
{
    match rfind_char(s, c) {
        Some(i) => {
            assert(s@.subrange(0, i as int) =~= s@.take(i as int));
            assert(s@.subrange(i + 1, s@.len() as int) =~= s@.skip(i + 1));
            let end: usize = s.len();
            Some((slice_subrange(s, 0, i), slice_subrange(s, i + 1, end)))
        },
        None => None,
    }
}

/// Where `pat` first stands in `s`; -1 where it does not.
pub open spec fn text_at(s: Seq<char>, pat: Seq<char>) -> int
    decreases s.len(),
{
    if begins(s, pat) {
        0
    } else if s.len() == 0 {
        -1
    } else {
        let rest = text_at(s.skip(1), pat);
        if rest < 0 {
            -1
        } else {
            1 + rest
        }
    }
}

/// What `text_at` says: the pattern stands there, and nowhere before.
pub proof fn lemma_text_at(s: Seq<char>, pat: Seq<char>)
    ensures
        -1 <= text_at(s, pat) <= s.len(),
        text_at(s, pat) >= 0 ==> begins(s.skip(text_at(s, pat)), pat),
        forall|k: int|
            0 <= k <= s.len() && (text_at(s, pat) < 0 || k < text_at(s, pat)) ==> !begins(
                #[trigger] s.skip(k),
                pat,
            ),
    decreases s.len(),
{
    assert(s.skip(0) =~= s);
    if !begins(s, pat) && s.len() > 0 {
        let rest = text_at(s.skip(1), pat);
        lemma_text_at(s.skip(1), pat);
        if rest >= 0 {
            assert(s.skip(1).skip(rest) =~= s.skip(1 + rest));
        }
        assert forall|k: int|
            0 <= k <= s.len() && (text_at(s, pat) < 0 || k < text_at(s, pat)) implies !begins(
            #[trigger] s.skip(k),
            pat,
        ) by {
            if k > 0 {
                assert(s.skip(1).skip(k - 1) =~= s.skip(k));
            }
        }
    }
}

/// Where `pat` first stands in `s`.
pub fn find_text(s: &[char], pat: &str) -> (r: Option<usize>)
    ensures
        match r {
            Some(i) => i == text_at(s@, pat@) && i + pat@.len() <= s@.len(),
            None => text_at(s@, pat@) < 0,
        },
{
    proof {
        lemma_text_at(s@, pat@);
    }
    let mut i: usize = 0;
    loop
        invariant
            i <= s@.len(),
            forall|k: int| 0 <= k < i ==> !begins(#[trigger] s@.skip(k), pat@),
        decreases s@.len() - i,
    {
        let rest = slice_subrange(s, i, s.len());
        assert(rest@ =~= s@.skip(i as int));
        if starts_with(rest, pat) {
            proof {
                lemma_text_at(s@, pat@);
            }
            return Some(i);
        }
        if i == s.len() {
            proof {
                lemma_text_at(s@, pat@);
            }
            return None;
        }
        i = i + 1;
    }
}

/// The two parts of `s` around the first `pat`.
pub open spec fn parted_at(s: Seq<char>, pat: Seq<char>) -> Option<(Seq<char>, Seq<char>)> {
    let i = text_at(s, pat);
    if i >= 0 {
        Some((s.take(i), s.skip(i + pat.len())))
    } else {
        None
    }
}

/// The two parts of `s` around the first `pat`.
pub fn split_once_text<'a>(s: &'a [char], pat: &str) -> (r: Option<(&'a [char], &'a [char])>)
    ensures
        opt_pair(r) == parted_at(s@, pat@),
{
    let n: usize = chars_of(pat).len();
    match find_text(s, pat) {
        Some(i) => {
            assert(s@.subrange(0, i as int) =~= s@.take(i as int));
            assert(s@.subrange(i + n, s@.len() as int) =~= s@.skip(i + n));
            let end: usize = s.len();
            Some((slice_subrange(s, 0, i), slice_subrange(s, i + n, end)))
        },
        None => None,
    }
}

// ---------------------------------------------------------------------------
// Numbers
// ---------------------------------------------------------------------------

/// Whether `c` is one of the ten decimal digits.
pub open spec fn is_digit(c: char) -> bool {
    '0' <= c <= '9'
}

/// Whether `s` is one or more decimal digits.
pub open spec fn is_digits(s: Seq<char>) -> bool {
    s.len() > 0 && forall|i: int| 0 <= i < s.len() ==> is_digit(#[trigger] s[i])
}

/// The value of a sequence of decimal digits.
pub open spec fn digits_value(s: Seq<char>) -> nat
    decreases s.len(),
{
    if s.len() == 0 {
        0
    } else {
        10 * digits_value(s.drop_last()) + (s.last() as nat - '0' as nat) as nat
    }
}

/// `s` without the plus sign that it may start with.
pub open spec fn unsigned(s: Seq<char>) -> Seq<char> {
    if s.len() > 0 && s[0] == '+' {
        s.skip(1)
    } else {
        s
    }
}

/// The natural number that `s` writes: decimal digits, after a plus sign or
/// none.
pub open spec fn natural(s: Seq<char>) -> Option<nat> {
    if is_digits(unsigned(s)) {
        Some(digits_value(unsigned(s)))
    } else {
        None
    }
}

/// The natural number that `s` writes, where it is at most `max`.
pub open spec fn natural_up_to(s: Seq<char>, max: nat) -> Option<nat> {
    match natural(s) {
        Some(n) if n <= max => Some(n),
        _ => None,
    }
}

/// A longer run of digits is worth no less.
pub proof fn lemma_digits_grow(s: Seq<char>, i: int)
    requires
        0 <= i <= s.len(),
        forall|k: int| 0 <= k < s.len() ==> is_digit(#[trigger] s[k]),
    ensures
        digits_value(s.take(i)) <= digits_value(s),
    decreases s.len() - i,
{
    if i == s.len() {
        assert(s.take(i) =~= s);
    } else {
        assert(s.take(i + 1).drop_last() =~= s.take(i));
        lemma_digits_grow(s, i + 1);
    }
}

/// The number that `s` writes, where a `u128` holds it.
pub fn parse_u128(s: &[char]) -> (r: Option<u128>)
    ensures
        match r {
            Some(n) => natural_up_to(s@, u128::MAX as nat) == Some(n as nat),
            None => natural_up_to(s@, u128::MAX as nat) is None,
        },
{
    let digits = if s.len() > 0 && s[0] == '+' {
        let rest = slice_subrange(s, 1, s.len());
        assert(rest@ =~= s@.skip(1));
        rest
    } else {
        s
    };
    if digits.len() == 0 {
        return None;
    }
    let mut i: usize = 0;
    while i < digits.len()
        invariant
            i <= digits@.len(),
            digits@ == unsigned(s@),
            forall|k: int| 0 <= k < i ==> is_digit(#[trigger] digits@[k]),
        decreases digits@.len() - i,
    {
        if digits[i] < '0' || digits[i] > '9' {
            assert(!is_digit(digits@[i as int]));
            return None;
        }
        i = i + 1;
    }
    let mut value: u128 = 0;
    let mut j: usize = 0;
    while j < digits.len()
        invariant
            j <= digits@.len(),
            forall|k: int| 0 <= k < digits@.len() ==> is_digit(#[trigger] digits@[k]),
            value == digits_value(digits@.take(j as int)),
            natural(s@) == Some(digits_value(digits@)),
        decreases digits@.len() - j,
    {
        assert(is_digit(digits@[j as int]));
        assert(digits@.take(j + 1).drop_last() =~= digits@.take(j as int));
        proof {
            lemma_digits_grow(digits@, j + 1);
        }
        let d: u128 = (digits[j] as u32 - '0' as u32) as u128;
        match value.checked_mul(10) {
            Some(shifted) => match shifted.checked_add(d) {
                Some(next) => value = next,
                None => return None,
            },
            None => return None,
        }
        j = j + 1;
    }
    assert(digits@.take(j as int) =~= digits@);
    Some(value)
}

/// The number that `s` writes, where a `u64` holds it.
pub fn parse_u64(s: &[char]) -> (r: Option<u64>)
    ensures
        r == number(s@),
{
    match parse_u128(s) {
        Some(n) => if n <= u64::MAX as u128 {
            Some(n as u64)
        } else {
            None
        },
        None => None,
    }
}

/// The number that `s` writes, where a `u32` holds it.
pub fn parse_u32(s: &[char]) -> (r: Option<u32>)
    ensures
        match r {
            Some(n) => natural_up_to(s@, u32::MAX as nat) == Some(n as nat),
            None => natural_up_to(s@, u32::MAX as nat) is None,
        },
{
    match parse_u128(s) {
        Some(n) => if n <= u32::MAX as u128 {
            Some(n as u32)
        } else {
            None
        },
        None => None,
    }
}


/// The number that `s` writes, where a `usize` holds it.
pub fn parse_usize(s: &[char]) -> (r: Option<usize>)
    ensures
        match r {
            Some(n) => natural_up_to(s@, usize::MAX as nat) == Some(n as nat),
            None => natural_up_to(s@, usize::MAX as nat) is None,
        },
{
    match parse_u128(s) {
        Some(n) => if n <= usize::MAX as u128 {
            Some(n as usize)
        } else {
            None
        },
        None => None,
    }
}

/// The number that `s` writes, where a `u64` holds it; zero where it writes
/// none.
pub open spec fn number_or_zero(s: Seq<char>) -> u64 {
    match natural_up_to(s, u64::MAX as nat) {
        Some(n) => n as u64,
        None => 0,
    }
}

/// The number that `s` writes, where a `u64` holds it.
pub open spec fn number(s: Seq<char>) -> Option<u64> {
    match natural_up_to(s, u64::MAX as nat) {
        Some(n) => Some(n as u64),
        None => None,
    }
}

/// The whole number that `s` writes: decimal digits, after a sign or none.
pub open spec fn integer(s: Seq<char>) -> Option<int> {
    if s.len() > 0 && s[0] == '-' {
        if is_digits(s.skip(1)) {
            Some(-(digits_value(s.skip(1)) as int))
        } else {
            None
        }
    } else {
        match natural(s) {
            Some(n) => Some(n as int),
            None => None,
        }
    }
}

/// The whole number that `s` writes, where an `i64` holds it.
pub open spec fn signed_number(s: Seq<char>) -> Option<i64> {
    match integer(s) {
        Some(n) if i64::MIN <= n <= i64::MAX => Some(n as i64),
        _ => None,
    }
}

/// The whole number that `s` writes, where an `i64` holds it.
pub fn parse_i64(s: &[char]) -> (r: Option<i64>)
    ensures
        r == signed_number(s@),
{
    if s.len() > 0 && s[0] == '-' {
        let rest = slice_subrange(s, 1, s.len());
        assert(rest@ =~= s@.skip(1));
        if rest.len() > 0 && rest[0] == '+' {
            assert(!is_digit(rest@[0]));
            return None;
        }
        match parse_u128(rest) {
            Some(n) => if n <= 9223372036854775808 {
                Some((-(n as i128)) as i64)
            } else {
                None
            },
            None => None,
        }
    } else {
        match parse_u128(s) {
            Some(n) => if n <= 9223372036854775807 {
                Some(n as i64)
            } else {
                None
            },
            None => None,
        }
    }
}

/// The digit character of a number below ten.
pub open spec fn digit_char(d: nat) -> char {
    (('0' as nat) + d) as char
}

/// A number written in decimal, without leading zeros.
pub open spec fn decimal(n: nat) -> Seq<char>
    decreases n,
{
    if n < 10 {
        seq![digit_char(n)]
    } else {
        decimal(n / 10).push(digit_char(n % 10))
    }
}

/// The digit character of a number below ten.
fn digit_of(d: u64) -> (r: char)
    requires
        d < 10,
    ensures
        r == digit_char(d as nat),
{
    match d {
        0 => '0',
        1 => '1',
        2 => '2',
        3 => '3',
        4 => '4',
        5 => '5',
        6 => '6',
        7 => '7',
        8 => '8',
        _ => '9',
    }
}

/// Writes a number in decimal at the end of a string.
pub fn push_u64(out: &mut String, n: u64)
    ensures
        final(out)@ == old(out)@ + decimal(n as nat),
    decreases n,
{
    if n >= 10 {
        push_u64(out, n / 10);
    }
    out.push(digit_of(n % 10));
    assert(out@ =~= old(out)@ + decimal(n as nat));
}

/// What is written in decimal reads back as the same number.
pub proof fn law_decimal_reads_back(n: nat)
    ensures
        is_digits(decimal(n)),
        digits_value(decimal(n)) == n,
        natural(decimal(n)) == Some(n),
    decreases n,
{
    if n >= 10 {
        law_decimal_reads_back(n / 10);
        assert(decimal(n).drop_last() =~= decimal(n / 10));
        assert(decimal(n)[0] == decimal(n / 10)[0]);
    } else {
        assert(decimal(n).drop_last() =~= Seq::<char>::empty());
        assert(digits_value(Seq::<char>::empty()) == 0);
    }
    assert(decimal(n).last() == digit_char(n % 10));
    assert(is_digit(decimal(n)[0]));
}


// ---------------------------------------------------------------------------
// Joining
// ---------------------------------------------------------------------------

/// Some texts with a separator between each two.
pub open spec fn joined_with(parts: Seq<Seq<char>>, sep: Seq<char>) -> Seq<char>
    decreases parts.len(),
{
    if parts.len() == 0 {
        Seq::empty()
    } else if parts.len() == 1 {
        parts[0]
    } else {
        joined_with(parts.drop_last(), sep) + sep + parts.last()
    }
}

/// Some texts with a separator between each two.
pub fn join_with(parts: &Vec<&[char]>, sep: &str) -> (r: String)
    ensures
        r@ == joined_with(views(parts@), sep@),
{
    let ghost all = views(parts@);
    let mut out = String::new();
    let mut i: usize = 0;
    assert(all.take(0) =~= Seq::<Seq<char>>::empty());
    while i < parts.len()
        invariant
            i <= parts@.len(),
            all == views(parts@),
            out@ == joined_with(all.take(i as int), sep@),
        decreases parts@.len() - i,
    {
        assert(all.take(i + 1).drop_last() =~= all.take(i as int));
        if i > 0 {
            out.append(sep);
        }
        let part = string_of(parts[i]);
        out.append(part.as_str());
        assert(all.take(i + 1).last() == part@);
        if i == 0 {
            assert(out@ =~= all.take(1)[0]);
        }
        i = i + 1;
    }
    assert(all.take(i as int) =~= all);
    out
}


/// `s` without every `c` in it.
pub open spec fn without(s: Seq<char>, c: char) -> Seq<char>
    decreases s.len(),
{
    if s.len() == 0 {
        s
    } else if s.last() == c {
        without(s.drop_last(), c)
    } else {
        without(s.drop_last(), c).push(s.last())
    }
}

/// `s` without every `c` in it.
pub fn remove_char(s: &[char], c: char) -> (r: Vec<char>)
    ensures
        r@ == without(s@, c),
{
    let mut out: Vec<char> = Vec::new();
    let mut i: usize = 0;
    assert(s@.take(0) =~= Seq::<char>::empty());
    while i < s.len()
        invariant
            i <= s@.len(),
            out@ == without(s@.take(i as int), c),
        decreases s@.len() - i,
    {
        assert(s@.take(i + 1).drop_last() =~= s@.take(i as int));
        if s[i] != c {
            out.push(s[i]);
        }
        i = i + 1;
    }
    assert(s@.take(i as int) =~= s@);
    out
}

/// Whether a text is one of some texts.
pub fn is_listed(text: &str, list: &Vec<String>) -> (r: bool)
    ensures
        r == texts(list@).contains(text@),
{
    let ghost all = texts(list@);
    let mut i: usize = 0;
    while i < list.len()
        invariant
            i <= list@.len(),
            all == texts(list@),
            forall|k: int| 0 <= k < i ==> all[k] != text@,
        decreases list@.len() - i,
    {
        assert(all[i as int] == list@[i as int]@);
        if same_str(list[i].as_str(), text) {
            assert(all[i as int] == text@);
            return true;
        }
        i = i + 1;
    }
    false
}

/// Splitting around one separator more: the pieces before it, then those
/// after it.
pub proof fn lemma_split_join(a: Seq<char>, c: char, b: Seq<char>, sep: spec_fn(char) -> bool)
    requires
        sep(c),
    ensures
        split_where(a.push(c) + b, sep) == split_where(a, sep) + split_where(b, sep),
    decreases b.len(),
{
    if b.len() == 0 {
        assert(a.push(c) + b =~= a.push(c));
        assert(a.push(c).drop_last() =~= a);
        assert(split_where(a.push(c), sep) =~= split_where(a, sep) + split_where(b, sep));
    } else {
        lemma_split_join(a, c, b.drop_last(), sep);
        lemma_split_nonempty(b.drop_last(), sep);
        let whole = a.push(c) + b;
        assert(whole.drop_last() =~= a.push(c) + b.drop_last());
        assert(whole.last() == b.last());
        let left = split_where(a, sep);
        let right = split_where(b.drop_last(), sep);
        assert((left + right).last() == right.last());
        assert((left + right).drop_last() =~= left + right.drop_last());
        assert(split_where(whole, sep) =~= left + split_where(b, sep));
    }
}

/// A text without a separator is one piece.
pub proof fn lemma_split_single(s: Seq<char>, sep: spec_fn(char) -> bool)
    requires
        forall|i: int| 0 <= i < s.len() ==> !sep(#[trigger] s[i]),
    ensures
        split_where(s, sep) == seq![s],
    decreases s.len(),
{
    if s.len() > 0 {
        assert forall|i: int| 0 <= i < s.drop_last().len() implies !sep(
            #[trigger] s.drop_last()[i],
        ) by {
            assert(s.drop_last()[i] == s[i]);
        }
        lemma_split_single(s.drop_last(), sep);
        assert(!sep(s[s.len() - 1]));
        assert(s.drop_last().push(s.last()) =~= s);
        assert(split_where(s, sep) =~= seq![s]);
    } else {
        assert(s =~= Seq::<char>::empty());
    }
}

proof fn lemma_nonempty_concat(p: Seq<Seq<char>>, q: Seq<Seq<char>>)
    ensures
        nonempty(p + q) == nonempty(p) + nonempty(q),
    decreases q.len(),
{
    if q.len() == 0 {
        assert(p + q =~= p);
        assert(nonempty(p) + nonempty(q) =~= nonempty(p));
    } else {
        assert((p + q).drop_last() =~= p + q.drop_last());
        lemma_nonempty_concat(p, q.drop_last());
        assert(nonempty(p + q) =~= nonempty(p) + nonempty(q));
    }
}

/// White space parts words, whatever there is of it: the words of two texts
/// with white space between them are those of the one and then those of the
/// other, and a text without white space is one word.
pub proof fn law_white_space_parts_words(a: Seq<char>, c: char, b: Seq<char>)
    ensures
        is_space(c) ==> words(a.push(c) + b) == words(a) + words(b),
        a.len() > 0 && (forall|i: int| 0 <= i < a.len() ==> !is_space(#[trigger] a[i])) ==> words(a)
            == seq![a],
        words(Seq::<char>::empty()).len() == 0,
        c == ' ' || c == '\t' || c == '\n' || c == '\r' ==> is_space(c),
        '!' <= c <= '~' ==> !is_space(c),
{
    let sep = |c: char| is_space(c);
    if is_space(c) {
        lemma_split_join(a, c, b, sep);
        lemma_nonempty_concat(split_where(a, sep), split_where(b, sep));
    }
    if a.len() > 0 && (forall|i: int| 0 <= i < a.len() ==> !is_space(#[trigger] a[i])) {
        assert forall|i: int| 0 <= i < a.len() implies !sep(#[trigger] a[i]) by {
            assert(!is_space(a[i]));
        }
        lemma_split_single(a, sep);
        assert(seq![a].drop_last() =~= Seq::<Seq<char>>::empty());
        assert(nonempty(Seq::<Seq<char>>::empty()) =~= Seq::<Seq<char>>::empty());
        assert(words(a) =~= seq![a]);
    }
    assert(split_where(Seq::<char>::empty(), sep) =~= seq![Seq::<char>::empty()]);
    assert(seq![Seq::<char>::empty()].drop_last() =~= Seq::<Seq<char>>::empty());
    assert(nonempty(seq![Seq::<char>::empty()]) =~= nonempty(Seq::<Seq<char>>::empty()));
}

/// A line feed ends a line, and a carriage return before it goes with it: the
/// first line is what stands before the first line feed, and the rest are the
/// lines of what stands behind it. A text without a line feed is one line, or
/// none where it is empty.
pub proof fn law_a_line_feed_ends_a_line(a: Seq<char>, b: Seq<char>)
    requires
        !a.contains('\n'),
    ensures
        lines(a.push('\n') + b) == seq![
            if a.len() > 0 && a.last() == '\r' {
                a.drop_last()
            } else {
                a
            },
        ] + lines(b),
        a.len() > 0 ==> lines(a) == seq![a],
        a.len() == 0 ==> lines(a).len() == 0,
{
    let sep = is_char('\n');
    assert forall|i: int| 0 <= i < a.len() implies !sep(#[trigger] a[i]) by {
        assert(a.contains(a[i]));
    }
    lemma_split_single(a, sep);
    lemma_split_join(a, '\n', b, sep);
    lemma_split_nonempty(b, sep);
    let p = pieces(b, '\n');
    let all = pieces(a.push('\n') + b, '\n');
    assert(all == seq![a] + p);
    assert(all.last() == p.last());
    let f = |l: Seq<char>| without_return(l);
    assert(all.drop_last() =~= seq![a] + p.drop_last());
    assert(all.drop_last().map_values(f) =~= seq![without_return(a)] + p.drop_last().map_values(f));
    assert(lines(a.push('\n') + b) =~= seq![without_return(a)] + lines(b));
    assert(pieces(a, '\n').drop_last().map_values(f) =~= Seq::<Seq<char>>::empty());
    assert(pieces(a, '\n').last() == a);
    if a.len() > 0 {
        assert(lines(a) =~= seq![a]);
    }
}

proof fn lemma_trimmed_start(s: Seq<char>)
    ensures
        trimmed_start(s).len() <= s.len(),
        trimmed_start(s) == s.skip(s.len() - trimmed_start(s).len()),
        trimmed_start(s).len() > 0 ==> !is_space(trimmed_start(s)[0]),
        forall|i: int|
            0 <= i < s.len() - trimmed_start(s).len() ==> is_space(#[trigger] s[i]),
    decreases s.len(),
{
    if s.len() > 0 && is_space(s[0]) {
        let rest = s.skip(1);
        lemma_trimmed_start(rest);
        let n = trimmed_start(s).len();
        assert(trimmed_start(s) =~= s.skip(s.len() - n));
        assert forall|i: int| 0 <= i < s.len() - n implies is_space(#[trigger] s[i]) by {
            if i > 0 {
                assert(rest[i - 1] == s[i]);
            }
        }
    } else {
        assert(s.skip(0) =~= s);
    }
}

proof fn lemma_trimmed_end(s: Seq<char>)
    ensures
        trimmed_end(s).len() <= s.len(),
        trimmed_end(s) == s.take(trimmed_end(s).len() as int),
        trimmed_end(s).len() > 0 ==> !is_space(trimmed_end(s).last()),
        forall|i: int| trimmed_end(s).len() <= i < s.len() ==> is_space(#[trigger] s[i]),
    decreases s.len(),
{
    if s.len() > 0 && is_space(s.last()) {
        let rest = s.drop_last();
        lemma_trimmed_end(rest);
        let n = trimmed_end(s).len();
        assert(trimmed_end(s) =~= s.take(n as int));
        assert forall|i: int| n <= i < s.len() implies is_space(#[trigger] s[i]) by {
            if i < rest.len() {
                assert(rest[i] == s[i]);
            }
        }
    } else {
        assert(s.take(s.len() as int) =~= s);
    }
}

/// Trimming takes white space away at both ends, all of it and nothing else.
pub proof fn law_trimming_takes_white_space_alone(s: Seq<char>) -> (from: int)
    ensures
        0 <= from <= from + trimmed(s).len() <= s.len(),
        trimmed(s) == s.subrange(from, from + trimmed(s).len()),
        forall|i: int| 0 <= i < from ==> is_space(#[trigger] s[i]),
        forall|i: int| from + trimmed(s).len() <= i < s.len() ==> is_space(#[trigger] s[i]),
        trimmed(s).len() > 0 ==> !is_space(trimmed(s).first()) && !is_space(trimmed(s).last()),
{
    let t = trimmed_start(s);
    lemma_trimmed_start(s);
    lemma_trimmed_end(t);
    let from = s.len() - t.len();
    let n = trimmed(s).len();
    assert(trimmed(s) =~= s.subrange(from, from + n));
    assert forall|i: int| from + n <= i < s.len() implies is_space(#[trigger] s[i]) by {
        assert(t[i - from] == s[i]);
    }
    from
}

/// A number is written in decimal digits alone, after a plus sign or none, and
/// each digit more is worth ten times what stands before it and itself.
pub proof fn law_only_digits_are_a_number(s: Seq<char>, c: char)
    ensures
        natural(s) matches Some(n) ==> forall|i: int|
            0 < i < s.len() ==> '0' <= #[trigger] s[i] <= '9',
        natural(s) matches Some(n) ==> s.len() > 0 && ('0' <= s[0] <= '9' || s[0] == '+'),
        natural(s) matches Some(n) ==> '0' <= c <= '9' ==> natural(s.push(c)) == Some(
            (10 * n + (c as nat - '0' as nat)) as nat,
        ),
        !('0' <= c <= '9') ==> natural(s.push(c)) is None || s.len() == 0,
        natural(Seq::<char>::empty()) is None,
        number(s) matches Some(n) ==> natural(s) == Some(n as nat),
        natural(s) matches Some(n) ==> n <= u64::MAX ==> number(s) == Some(n as u64)
            && number_or_zero(s) == n,
        natural(s) is None ==> number_or_zero(s) == 0,
{
    let u = unsigned(s);
    if natural(s) is Some {
        assert forall|i: int| 0 < i < s.len() implies '0' <= #[trigger] s[i] <= '9' by {
            if s[0] == '+' {
                assert(u[i - 1] == s[i]);
                assert(is_digit(u[i - 1]));
            } else {
                assert(is_digit(u[i]));
            }
        }
        if s[0] != '+' {
            assert(is_digit(u[0]));
        }
        if '0' <= c <= '9' {
            assert(unsigned(s.push(c)) =~= u.push(c));
            assert(u.push(c).drop_last() =~= u);
            assert forall|i: int| 0 <= i < u.push(c).len() implies is_digit(
                #[trigger] u.push(c)[i],
            ) by {
                if i < u.len() {
                    assert(is_digit(u[i]));
                }
            }
        }
    }
    if !('0' <= c <= '9') && s.len() > 0 {
        let w = unsigned(s.push(c));
        assert(w.last() == c);
        assert(w.len() > 0 ==> !is_digit(w[w.len() - 1]));
    }
}

/// A text with another before it begins with that one, and what is left
/// without it is the text; and so at the end. Nothing is left of a text that
/// does not begin, or end, so.
pub proof fn law_what_is_put_before_comes_off(a: Seq<char>, b: Seq<char>)
    ensures
        begins(a + b, a),
        after_prefix(a + b, a) == Some(b),
        ends(a + b, b),
        before_suffix(a + b, b) == Some(a),
        after_prefix(b, a) matches Some(rest) ==> a + rest == b,
        before_suffix(a, b) matches Some(front) ==> front + b == a,
        begins(b, a) == (after_prefix(b, a) is Some),
        ends(a, b) == (before_suffix(a, b) is Some),
{
    let t = a + b;
    assert(t.take(a.len() as int) =~= a);
    assert(t.skip(a.len() as int) =~= b);
    assert(t.len() - b.len() == a.len());
    if let Some(rest) = after_prefix(b, a) {
        assert(a + rest =~= b);
    }
    if let Some(front) = before_suffix(a, b) {
        assert(front + b =~= a);
    }
}

/// A text is parted at the first of a character, or at the last, and both
/// sides are kept whole; without that character it is not parted.
pub proof fn law_a_text_is_parted_at_its_mark(a: Seq<char>, c: char, b: Seq<char>)
    ensures
        !a.contains(c) ==> parted(a.push(c) + b, c) == Some((a, b)),
        !b.contains(c) ==> rparted(a.push(c) + b, c) == Some((a, b)),
        !a.contains(c) ==> parted(a, c) is None && rparted(a, c) is None,
{
    let t = a.push(c) + b;
    assert(t[a.len() as int] == c);
    if !a.contains(c) {
        lemma_first_at(t, c);
        let at = first_at(t, c);
        if at < a.len() {
            assert(a[at] == t[at]);
            assert(a.contains(a[at]));
        }
        assert(at == a.len());
        assert(t.take(at) =~= a);
        assert(t.skip(at + 1) =~= b);
        lemma_first_at(a, c);
        lemma_last_at(a, c);
        if first_at(a, c) < a.len() {
            assert(a.contains(a[first_at(a, c)]));
        }
        if last_at(a, c) >= 0 {
            assert(a.contains(a[last_at(a, c)]));
        }
    }
    if !b.contains(c) {
        lemma_last_at(t, c);
        let at = last_at(t, c);
        if at > a.len() {
            assert(t[at] == b[at - a.len() - 1]);
            assert(b.contains(t[at]));
        }
        assert(at == a.len());
        assert(t.take(at) =~= a);
        assert(t.skip(at + 1) =~= b);
    }
}

/// A number is written without zeros before it.
pub proof fn law_no_zeros_are_written_first(n: nat)
    ensures
        n > 0 ==> decimal(n)[0] != '0',
        decimal(0) == seq!['0'],
        decimal(n).len() > 0,
    decreases n,
{
    if n >= 10 {
        law_no_zeros_are_written_first(n / 10);
        assert(decimal(n)[0] == decimal(n / 10)[0]);
    } else {
        assert(decimal(0) =~= seq!['0']);
    }
}

/// A minus sign before a number is the number below zero.
pub proof fn law_a_minus_sign_is_below_zero(n: nat)
    requires
        n <= i64::MAX,
    ensures
        signed_number(decimal(n)) == Some(n as i64),
        signed_number(seq!['-'] + decimal(n)) == Some((-(n as int)) as i64),
{
    law_decimal_reads_back(n);
    let s = seq!['-'] + decimal(n);
    assert(is_digit(decimal(n)[0]));
    assert(s[0] == '-');
    assert(s.skip(1) =~= decimal(n));
    assert(unsigned(decimal(n)) == decimal(n));
}

/// Joined texts stand in order with the separator between each two; and what
/// is taken out of a text is every one of that character, and nothing else.
pub proof fn law_joining_and_taking_out(
    parts: Seq<Seq<char>>,
    more: Seq<char>,
    sep: Seq<char>,
    s: Seq<char>,
    c: char,
    x: char,
)
    ensures
        parts.len() > 0 ==> joined_with(parts.push(more), sep) == joined_with(parts, sep) + sep
            + more,
        joined_with(seq![more], sep) == more,
        joined_with(Seq::<Seq<char>>::empty(), sep).len() == 0,
        x == c ==> without(s.push(x), c) == without(s, c),
        x != c ==> without(s.push(x), c) == without(s, c).push(x),
        without(Seq::<char>::empty(), c).len() == 0,
{
    assert(parts.push(more).drop_last() =~= parts);
    assert(s.push(x).drop_last() =~= s);
}

} // verus!
