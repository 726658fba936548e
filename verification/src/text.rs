//! Character-level helpers: conversion between strings and character
//! vectors, word splitting, substring search.
use vstd::prelude::*;
use vstd::string::StringExecFns;

verus! {

/// Whether `c` has the Unicode `White_Space` property, as `char::is_whitespace` reports it.
pub uninterp spec fn unicode_whitespace(c: char) -> bool;

/// The lowercase form of `s`, as `str::to_lowercase` computes it.
pub uninterp spec fn unicode_lowercase(s: Seq<char>) -> Seq<char>;

/// `char::is_whitespace`: the answer depends on the character alone and is
/// given the name [`unicode_whitespace`].
pub assume_specification[ char::is_whitespace ](c: char) -> (b: bool)
    ensures
        b == unicode_whitespace(c),
;

/// `str::to_lowercase`: the new string depends on the characters of `s` alone
/// and is given the name [`unicode_lowercase`].
pub assume_specification[ str::to_lowercase ](s: &str) -> (r: String)
    ensures
        r@ == unicode_lowercase(s@),
;

/// `String::push`: appends `c` to the end of the string.
pub assume_specification[ String::push ](s: &mut String, c: char)
    ensures
        final(s)@ == old(s)@.push(c),
;

/// The ASCII punctuation characters: `!`..=`/`, `:`..=`@`, `[`..=`` ` ``, `{`..=`~`.
pub open spec fn ascii_punctuation(c: char) -> bool {
    ||| '!' <= c <= '/'
    ||| ':' <= c <= '@'
    ||| '[' <= c <= '`'
    ||| '{' <= c <= '~'
}

/// Whether `c` ends a word. Whitespace always does; ASCII punctuation does
/// when `punctuation` is set.
pub open spec fn is_separator(c: char, punctuation: bool) -> bool {
    unicode_whitespace(c) || (punctuation && ascii_punctuation(c))
}

/// Length of the run of non-separators that `s` starts with.
pub open spec fn word_len(s: Seq<char>, punctuation: bool) -> nat
    decreases s.len(),
{
    if s.len() == 0 || is_separator(s[0], punctuation) {
        0
    } else {
        1 + word_len(s.drop_first(), punctuation)
    }
}

/// The maximal runs of non-separators in `s`, in order of appearance.
pub open spec fn words(s: Seq<char>, punctuation: bool) -> Seq<Seq<char>>
    decreases s.len(),
    via words_decreases
{
    if s.len() == 0 {
        Seq::empty()
    } else if is_separator(s[0], punctuation) {
        words(s.drop_first(), punctuation)
    } else {
        let n = word_len(s, punctuation) as int;
        seq![s.take(n)] + words(s.skip(n), punctuation)
    }
}

#[via_fn]
proof fn words_decreases(s: Seq<char>, punctuation: bool) {
    lemma_word_len_bound(s, punctuation);
}

/// Whether `needle` occurs in `hay` as a contiguous run.
pub open spec fn is_substring(needle: Seq<char>, hay: Seq<char>) -> bool {
    exists|k: int|
        0 <= k && k + needle.len() <= hay.len() && #[trigger] hay.subrange(
            k,
            k + needle.len(),
        ) == needle
}

/// The views of the strings in `v`.
pub open spec fn string_views(v: Seq<String>) -> Seq<Seq<char>> {
    Seq::new(v.len(), |i: int| v[i]@)
}

pub proof fn lemma_word_len_bound(s: Seq<char>, punctuation: bool)
    ensures
        word_len(s, punctuation) <= s.len(),
        s.len() > 0 && !is_separator(s[0], punctuation) ==> word_len(s, punctuation) > 0,
    decreases s.len(),
{
    if s.len() > 0 && !is_separator(s[0], punctuation) {
        lemma_word_len_bound(s.drop_first(), punctuation);
    }
}

/// A run of non-separators that ends at a separator, or at the end of the
/// text, is exactly the leading word.
pub proof fn lemma_word_len_run(s: Seq<char>, punctuation: bool, n: int)
    requires
        0 <= n <= s.len(),
        forall|j: int| 0 <= j < n ==> !is_separator(#[trigger] s[j], punctuation),
        n == s.len() || is_separator(s[n], punctuation),
    ensures
        word_len(s, punctuation) == n,
    decreases n,
{
    if n > 0 {
        let t = s.drop_first();
        assert forall|j: int| 0 <= j < n - 1 implies !is_separator(#[trigger] t[j], punctuation) by {
            assert(t[j] == s[j + 1]);
        }
        lemma_word_len_run(t, punctuation, n - 1);
    }
}

/// The characters of `s`, as a vector.
pub fn chars_of(s: &str) -> (v: Vec<char>)
    ensures
        v@ == s@,
{
    let mut v: Vec<char> = Vec::new();
    for c in it: s.chars()
        invariant
            it.seq() == s@,
            v@ == s@.take(it.index() as int),
    {
        assert(s@.take(it.index() + 1) == s@.take(it.index() as int).push(c));
        v.push(c);
    }
    assert(s@.take(s@.len() as int) == s@);
    v
}

/// The string made of `chars[from..to]`.
pub fn string_of(chars: &Vec<char>, from: usize, to: usize) -> (r: String)
    requires
        from <= to <= chars.len(),
    ensures
        r@ == chars@.subrange(from as int, to as int),
{
    let mut r = String::new();
    let mut i: usize = from;
    while i < to
        invariant
            from <= i <= to <= chars.len(),
            r@ == chars@.subrange(from as int, i as int),
        decreases to - i,
    {
        r.push(chars[i]);
        assert(chars@.subrange(from as int, i + 1) == chars@.subrange(from as int, i as int).push(
            chars[i as int],
        ));
        i = i + 1;
    }
    r
}

/// Whether `c` is an ASCII punctuation character.
pub fn is_ascii_punctuation(c: char) -> (b: bool)
    ensures
        b == ascii_punctuation(c),
{
    (c >= '!' && c <= '/') || (c >= ':' && c <= '@') || (c >= '[' && c <= '`') || (c >= '{' && c
        <= '~')
}

/// Whether `c` ends a word (see [`is_separator`]).
pub fn ends_word(c: char, punctuation: bool) -> (b: bool)
    ensures
        b == is_separator(c, punctuation),
{
    c.is_whitespace() || (punctuation && is_ascii_punctuation(c))
}

/// A word that is followed by a separator, or by the end of the text, is the
/// first of the words of the text that begins with it.
proof fn lemma_words_first(s: Seq<char>, punctuation: bool, n: int)
    requires
        0 < n <= s.len(),
        forall|j: int| 0 <= j < n ==> !is_separator(#[trigger] s[j], punctuation),
        n == s.len() || is_separator(s[n], punctuation),
    ensures
        words(s, punctuation) == seq![s.take(n)] + words(s.skip(n), punctuation),
{
    lemma_word_len_run(s, punctuation, n);
}

/// A leading separator contributes no word.
proof fn lemma_words_skip_separator(s: Seq<char>, punctuation: bool)
    requires
        s.len() > 0,
        is_separator(s[0], punctuation),
    ensures
        words(s, punctuation) == words(s.skip(1), punctuation),
{
    assert(s.drop_first() == s.skip(1));
}

/// Splits `chars` into its words: the maximal runs of characters that are not
/// separators. Empty runs are never produced.
pub fn split_words(chars: &Vec<char>, punctuation: bool) -> (out: Vec<String>)
    ensures
        string_views(out@) == words(chars@, punctuation),
{
    let mut out: Vec<String> = Vec::new();
    let n = chars.len();
    let mut start: usize = 0;
    let mut i: usize = 0;
    proof {
        assert(chars@.skip(0) == chars@);
        assert(string_views(out@) + words(chars@, punctuation) == words(chars@, punctuation));
    }
    while i < n
        invariant
            n == chars.len(),
            start <= i <= n,
            forall|j: int| start <= j < i ==> !is_separator(#[trigger] chars[j], punctuation),
            words(chars@, punctuation) == string_views(out@) + words(
                chars@.skip(start as int),
                punctuation,
            ),
        decreases n - i,
    {
        if ends_word(chars[i], punctuation) {
            let ghost tail = chars@.skip(i as int);
            proof {
                assert(tail[0] == chars[i as int]);
                assert(tail.skip(1) == chars@.skip(i + 1));
                lemma_words_skip_separator(tail, punctuation);
            }
            if start < i {
                let w = string_of(chars, start, i);
                proof {
                    let rest = chars@.skip(start as int);
                    assert forall|j: int| 0 <= j < i - start implies !is_separator(
                        #[trigger] rest[j],
                        punctuation,
                    ) by {
                        assert(rest[j] == chars[start + j]);
                    }
                    assert(rest[i - start] == chars[i as int]);
                    lemma_words_first(rest, punctuation, i - start);
                    assert(rest.take(i - start) == w@);
                    assert(rest.skip(i - start) == tail);
                    assert(string_views(out@.push(w)) == string_views(out@) + seq![w@]);
                    assert((string_views(out@) + seq![w@]) + words(tail, punctuation)
                        == string_views(out@) + (seq![w@] + words(tail, punctuation)));
                }
                out.push(w);
            }
            start = i + 1;
        }
        i = i + 1;
    }
    if start < n {
        let w = string_of(chars, start, n);
        proof {
            let rest = chars@.skip(start as int);
            assert forall|j: int| 0 <= j < n - start implies !is_separator(
                #[trigger] rest[j],
                punctuation,
            ) by {
                assert(rest[j] == chars[start + j]);
            }
            lemma_words_first(rest, punctuation, n - start);
            assert(rest.take(n - start) == w@);
            assert(rest.skip(n - start).len() == 0);
            assert(string_views(out@.push(w)) == string_views(out@) + seq![w@]);
            assert(seq![w@] + words(rest.skip(n - start), punctuation) == seq![w@]);
        }
        out.push(w);
    } else {
        assert(chars@.skip(start as int).len() == 0);
        assert(string_views(out@) + Seq::<Seq<char>>::empty() == string_views(out@));
    }
    out
}

/// Whether `hay[at..]` starts with `needle`.
fn matches_at(hay: &Vec<char>, needle: &Vec<char>, at: usize) -> (b: bool)
    requires
        at + needle.len() <= hay.len(),
    ensures
        b == (hay@.subrange(at as int, at + needle.len()) == needle@),
{
    let m = needle.len();
    let mut j: usize = 0;
    while j < m
        invariant
            m == needle.len(),
            at + m <= hay.len(),
            j <= m,
            forall|t: int| 0 <= t < j ==> hay[at + t] == needle[t],
        decreases m - j,
    {
        if hay[at + j] != needle[j] {
            assert(hay@.subrange(at as int, at + m)[j as int] == hay[at + j]);
            return false;
        }
        j = j + 1;
    }
    assert(hay@.subrange(at as int, at + m) =~= needle@);
    true
}

/// Whether `needle` occurs in `hay` as a contiguous run. The empty needle
/// occurs in every text.
pub fn contains_run(hay: &Vec<char>, needle: &Vec<char>) -> (b: bool)
    ensures
        b == is_substring(needle@, hay@),
{
    let n = hay.len();
    let m = needle.len();
    if m > n {
        return false;
    }
    let last = n - m;
    let mut k: usize = 0;
    loop
        invariant
            n == hay.len(),
            m == needle.len(),
            m <= n,
            last == n - m,
            k <= last,
            forall|t: int| 0 <= t < k ==> #[trigger] hay@.subrange(t, t + m) != needle@,
        decreases last - k,
    {
        if matches_at(hay, needle, k) {
            return true;
        }
        if k == last {
            return false;
        }
        k = k + 1;
    }
}

/// Whether `a` and `b` hold the same characters.
pub fn same_text(a: &str, b: &str) -> (r: bool)
    ensures
        r == (a@ == b@),
{
    let x = String::from_str(a);
    let y = String::from_str(b);
    x == y
}

/// Whether `c` occurs in `chars`.
pub fn contains_char(chars: &Vec<char>, c: char) -> (b: bool)
    ensures
        b == chars@.contains(c),
{
    let mut i: usize = 0;
    while i < chars.len()
        invariant
            i <= chars.len(),
            forall|j: int| 0 <= j < i ==> chars[j] != c,
        decreases chars.len() - i,
    {
        if chars[i] == c {
            return true;
        }
        i = i + 1;
    }
    false
}

/// The views of the character vectors in `v`.
pub open spec fn char_views(v: Seq<Vec<char>>) -> Seq<Seq<char>> {
    Seq::new(v.len(), |i: int| v[i]@)
}

/// Length of the run of characters other than `sep` that `s` starts with.
pub open spec fn piece_len(s: Seq<char>, sep: char) -> nat
    decreases s.len(),
{
    if s.len() == 0 || s[0] == sep {
        0
    } else {
        1 + piece_len(s.drop_first(), sep)
    }
}

/// The pieces of `s` between occurrences of `sep`, empty pieces included.
/// There is always one piece more than there are separators.
pub open spec fn pieces(s: Seq<char>, sep: char) -> Seq<Seq<char>>
    decreases s.len(),
{
    let n = piece_len(s, sep) as int;
    if n >= s.len() {
        seq![s]
    } else {
        seq![s.take(n)] + pieces(s.skip(n + 1), sep)
    }
}

/// `s` without a carriage return at its end.
pub open spec fn without_cr(s: Seq<char>) -> Seq<char> {
    if s.len() > 0 && s.last() == '\r' {
        s.drop_last()
    } else {
        s
    }
}

/// The lines of `s`. A line ends at a line feed; a carriage return just
/// before the line feed belongs to the line ending. The last line need not
/// be ended, and a text that ends with a line feed has no empty line after
/// it.
pub open spec fn lines(s: Seq<char>) -> Seq<Seq<char>> {
    let p = pieces(s, '\n');
    let ended = Seq::new((p.len() - 1) as nat, |i: int| without_cr(p[i]));
    if p.last().len() == 0 {
        ended
    } else {
        ended.push(p.last())
    }
}

/// Whether `c` is taken off by a trim: whitespace where `what` is `None`,
/// else the character that `what` names.
pub open spec fn is_trimmed(c: char, what: Option<char>) -> bool {
    match what {
        None => unicode_whitespace(c),
        Some(w) => c == w,
    }
}

/// How many characters a trim takes off the front of `s`.
pub open spec fn trim_front(s: Seq<char>, what: Option<char>) -> nat
    decreases s.len(),
{
    if s.len() == 0 || !is_trimmed(s[0], what) {
        0
    } else {
        1 + trim_front(s.drop_first(), what)
    }
}

/// How many characters a trim takes off the end of `s`.
pub open spec fn trim_back(s: Seq<char>, what: Option<char>) -> nat
    decreases s.len(),
{
    if s.len() == 0 || !is_trimmed(s.last(), what) {
        0
    } else {
        1 + trim_back(s.drop_last(), what)
    }
}

/// `s` without the characters that a trim takes off its front and, of what
/// is left, off its end.
pub open spec fn trimmed(s: Seq<char>, what: Option<char>) -> Seq<char> {
    let rest = s.skip(trim_front(s, what) as int);
    rest.take(rest.len() - trim_back(rest, what))
}

/// Whether `s` begins with `prefix`.
pub open spec fn has_prefix(s: Seq<char>, prefix: Seq<char>) -> bool {
    prefix.len() <= s.len() && s.take(prefix.len() as int) == prefix
}

/// The parts of `v` with `sep` between each two.
pub open spec fn joined(v: Seq<Seq<char>>, sep: Seq<char>) -> Seq<char>
    decreases v.len(),
{
    if v.len() == 0 {
        Seq::empty()
    } else if v.len() == 1 {
        v[0]
    } else {
        joined(v.drop_last(), sep) + sep + v.last()
    }
}

/// A run without `sep` that ends at a `sep`, or at the end of the text, is
/// the leading piece.
pub proof fn lemma_piece_len_run(s: Seq<char>, sep: char, n: int)
    requires
        0 <= n <= s.len(),
        forall|j: int| 0 <= j < n ==> #[trigger] s[j] != sep,
        n == s.len() || s[n] == sep,
    ensures
        piece_len(s, sep) == n,
    decreases n,
{
    if n > 0 {
        let t = s.drop_first();
        assert forall|j: int| 0 <= j < n - 1 implies #[trigger] t[j] != sep by {
            assert(t[j] == s[j + 1]);
        }
        lemma_piece_len_run(t, sep, n - 1);
    }
}

/// A copy of `chars[from..to]`.
pub fn slice_of(chars: &Vec<char>, from: usize, to: usize) -> (r: Vec<char>)
    requires
        from <= to <= chars.len(),
    ensures
        r@ == chars@.subrange(from as int, to as int),
{
    let mut r: Vec<char> = Vec::new();
    let mut i: usize = from;
    while i < to
        invariant
            from <= i <= to <= chars.len(),
            r@ == chars@.subrange(from as int, i as int),
        decreases to - i,
    {
        r.push(chars[i]);
        assert(chars@.subrange(from as int, i + 1) == chars@.subrange(from as int, i as int).push(
            chars[i as int],
        ));
        i = i + 1;
    }
    r
}

/// Cuts `chars` at every `sep`. Empty pieces are kept.
pub fn split_on(chars: &Vec<char>, sep: char) -> (out: Vec<Vec<char>>)
    ensures
        char_views(out@) == pieces(chars@, sep),
        out.len() >= 1,
{
    let mut out: Vec<Vec<char>> = Vec::new();
    let n = chars.len();
    let mut start: usize = 0;
    let mut i: usize = 0;
    proof {
        assert(chars@.skip(0) == chars@);
        assert(char_views(out@) + pieces(chars@, sep) == pieces(chars@, sep));
    }
    while i < n
        invariant
            n == chars.len(),
            start <= i <= n,
            forall|j: int| start <= j < i ==> #[trigger] chars[j] != sep,
            pieces(chars@, sep) == char_views(out@) + pieces(chars@.skip(start as int), sep),
        decreases n - i,
    {
        if chars[i] == sep {
            let piece = slice_of(chars, start, i);
            proof {
                let rest = chars@.skip(start as int);
                assert forall|j: int| 0 <= j < i - start implies #[trigger] rest[j] != sep by {
                    assert(rest[j] == chars[start + j]);
                }
                assert(rest[i - start] == chars[i as int]);
                lemma_piece_len_run(rest, sep, i - start);
                assert(rest.take(i - start) == piece@);
                assert(rest.skip(i - start + 1) == chars@.skip(i + 1));
                assert(char_views(out@.push(piece)) == char_views(out@) + seq![piece@]);
                assert((char_views(out@) + seq![piece@]) + pieces(chars@.skip(i + 1), sep)
                    == char_views(out@) + (seq![piece@] + pieces(chars@.skip(i + 1), sep)));
            }
            out.push(piece);
            start = i + 1;
        }
        i = i + 1;
    }
    let piece = slice_of(chars, start, n);
    proof {
        let rest = chars@.skip(start as int);
        assert forall|j: int| 0 <= j < n - start implies #[trigger] rest[j] != sep by {
            assert(rest[j] == chars[start + j]);
        }
        lemma_piece_len_run(rest, sep, n - start);
        assert(rest == piece@);
        assert(char_views(out@.push(piece)) == char_views(out@) + seq![piece@]);
        lemma_pieces_nonempty(chars@, sep);
    }
    out.push(piece);
    out
}

/// There is always at least one piece.
pub proof fn lemma_pieces_nonempty(s: Seq<char>, sep: char)
    ensures
        pieces(s, sep).len() >= 1,
{
}

/// The lines of `chars`.
pub fn split_lines(chars: &Vec<char>) -> (out: Vec<Vec<char>>)
    ensures
        char_views(out@) == lines(chars@),
{
    let mut parts = split_on(chars, '\n');
    let ghost p = pieces(chars@, '\n');
    let count = parts.len();
    let mut out: Vec<Vec<char>> = Vec::new();
    let mut i: usize = 0;
    while i + 1 < count
        invariant
            count == parts.len(),
            count >= 1,
            i + 1 <= count,
            char_views(parts@) == p,
            char_views(out@) == Seq::new(i as nat, |k: int| without_cr(p[k])),
        decreases count - i,
    {
        let part = &parts[i];
        let len = part.len();
        let line = if len > 0 && part[len - 1] == '\r' {
            slice_of(part, 0, len - 1)
        } else {
            slice_of(part, 0, len)
        };
        proof {
            assert(p[i as int] == part@);
            assert(part@.subrange(0, len as int) == part@);
            if len > 0 {
                assert(part@.subrange(0, len - 1) == part@.drop_last());
            }
            assert(line@ == without_cr(p[i as int]));
        }
        let ghost before = char_views(out@);
        out.push(line);
        proof {
            assert(char_views(out@) =~= before.push(line@));
            assert(before.push(line@) =~= Seq::new((i + 1) as nat, |k: int| without_cr(p[k])));
        }
        i = i + 1;
    }
    let last = &parts[count - 1];
    assert(p.last() == last@);
    if last.len() > 0 {
        let line = slice_of(last, 0, last.len());
        proof {
            assert(last@.subrange(0, last.len() as int) == last@);
            assert(char_views(out@.push(line)) =~= char_views(out@).push(line@));
        }
        out.push(line);
    }
    out
}

/// Whether `c` is taken off by a trim (see [`is_trimmed`]).
pub fn trims(c: char, what: Option<char>) -> (b: bool)
    ensures
        b == is_trimmed(c, what),
{
    match what {
        None => c.is_whitespace(),
        Some(w) => c == w,
    }
}

/// Takes whitespace off both ends of `chars` where `what` is `None`, else
/// every leading and trailing occurrence of the character that `what` names.
pub fn trim(chars: &Vec<char>, what: Option<char>) -> (r: Vec<char>)
    ensures
        r@ == trimmed(chars@, what),
{
    let n = chars.len();
    let mut from: usize = 0;
    assert(chars@.skip(0) == chars@);
    while from < n && trims(chars[from], what)
        invariant
            from <= n,
            n == chars.len(),
            trim_front(chars@, what) == from + trim_front(chars@.skip(from as int), what),
        decreases n - from,
    {
        proof {
            let rest = chars@.skip(from as int);
            assert(rest[0] == chars[from as int]);
            assert(rest.drop_first() == chars@.skip(from + 1));
        }
        from = from + 1;
    }
    proof {
        let rest = chars@.skip(from as int);
        if from < n {
            assert(rest[0] == chars[from as int]);
        }
        assert(trim_front(rest, what) == 0);
    }
    let ghost rest = chars@.skip(from as int);
    let mut to: usize = n;
    assert(rest.take(n - from) == rest);
    while to > from && trims(chars[to - 1], what)
        invariant
            from <= to <= n,
            n == chars.len(),
            rest == chars@.skip(from as int),
            trim_back(rest, what) == (n - to) + trim_back(rest.take(to - from), what),
        decreases to,
    {
        proof {
            let kept = rest.take(to - from);
            assert(kept.last() == chars[to - 1]);
            assert(kept.drop_last() == rest.take(to - 1 - from));
        }
        to = to - 1;
    }
    proof {
        let kept = rest.take(to - from);
        if to > from {
            assert(kept.last() == chars[to - 1]);
        }
        assert(trim_back(kept, what) == 0);
        assert(rest.take(rest.len() - trim_back(rest, what)) == chars@.subrange(
            from as int,
            to as int,
        ));
        assert(rest.take(n - from) == rest);
    }
    slice_of(chars, from, to)
}

/// Whether `chars` begins with `prefix`.
pub fn starts_with(chars: &Vec<char>, prefix: &Vec<char>) -> (b: bool)
    ensures
        b == has_prefix(chars@, prefix@),
{
    if prefix.len() > chars.len() {
        return false;
    }
    let b = matches_at(chars, prefix, 0);
    assert(chars@.take(prefix.len() as int) == chars@.subrange(0, 0 + prefix.len()));
    b
}

/// The parts with `sep` between each two.
pub fn join(parts: &Vec<Vec<char>>, sep: &Vec<char>) -> (r: Vec<char>)
    ensures
        r@ == joined(char_views(parts@), sep@),
{
    let mut r: Vec<char> = Vec::new();
    let ghost all = char_views(parts@);
    let mut i: usize = 0;
    assert(all.take(0).len() == 0);
    while i < parts.len()
        invariant
            i <= parts.len(),
            all == char_views(parts@),
            r@ == joined(all.take(i as int), sep@),
        decreases parts.len() - i,
    {
        let ghost before = r@;
        if i > 0 {
            append(&mut r, sep);
        }
        append(&mut r, &parts[i]);
        proof {
            let next = all.take(i + 1);
            assert(next.drop_last() == all.take(i as int));
            assert(next.last() == parts[i as int]@);
            if i == 0 {
                assert(next[0] == parts[0]@);
                assert(before + parts[0]@ == parts[0]@);
            }
        }
        i = i + 1;
    }
    assert(all.take(parts.len() as int) == all);
    r
}

/// Appends `more` to `to`.
pub fn append(to: &mut Vec<char>, more: &Vec<char>)
    ensures
        final(to)@ == old(to)@ + more@,
{
    let mut i: usize = 0;
    let ghost before = to@;
    assert(to@ == before + more@.take(0));
    while i < more.len()
        invariant
            i <= more.len(),
            to@ == before + more@.take(i as int),
        decreases more.len() - i,
    {
        to.push(more[i]);
        assert(more@.take(i + 1) == more@.take(i as int).push(more[i as int]));
        assert(before + more@.take(i + 1) == (before + more@.take(i as int)).push(more[i as int]));
        i = i + 1;
    }
    assert(more@.take(more.len() as int) == more@);
}

/// `s` without the whitespace at its end.
pub open spec fn end_trimmed(s: Seq<char>) -> Seq<char> {
    s.take(s.len() - trim_back(s, None))
}

/// Takes the whitespace off the end of `chars`.
pub fn trim_end(chars: &Vec<char>) -> (r: Vec<char>)
    ensures
        r@ == end_trimmed(chars@),
{
    let n = chars.len();
    let mut to: usize = n;
    assert(chars@.take(n as int) == chars@);
    while to > 0 && trims(chars[to - 1], None)
        invariant
            to <= n,
            n == chars.len(),
            trim_back(chars@, None) == (n - to) + trim_back(chars@.take(to as int), None),
        decreases to,
    {
        proof {
            let kept = chars@.take(to as int);
            assert(kept.last() == chars[to - 1]);
            assert(kept.drop_last() == chars@.take(to - 1));
        }
        to = to - 1;
    }
    proof {
        let kept = chars@.take(to as int);
        if to > 0 {
            assert(kept.last() == chars[to - 1]);
        }
        assert(trim_back(kept, None) == 0);
        assert(chars@.take(to as int) == chars@.subrange(0, to as int));
    }
    slice_of(chars, 0, to)
}

/// `needle` occurs in `hay` at `at`.
pub open spec fn occurs_at(needle: Seq<char>, hay: Seq<char>, at: int) -> bool {
    0 <= at && at + needle.len() <= hay.len() && hay.subrange(at, at + needle.len()) == needle
}

/// Where `needle` first occurs in `hay`.
pub open spec fn first_occurrence(needle: Seq<char>, hay: Seq<char>) -> Option<int> {
    if is_substring(needle, hay) {
        Some(
            choose|k: int|
                occurs_at(needle, hay, k) && forall|j: int|
                    0 <= j < k ==> !#[trigger] occurs_at(needle, hay, j),
        )
    } else {
        None
    }
}

/// Where `needle` first occurs in `hay`.
pub fn find_run(hay: &Vec<char>, needle: &Vec<char>) -> (r: Option<usize>)
    ensures
        match r {
            Some(k) => first_occurrence(needle@, hay@) == Some(k as int) && occurs_at(
                needle@,
                hay@,
                k as int,
            ),
            None => first_occurrence(needle@, hay@) is None,
        },
{
    let n = hay.len();
    let m = needle.len();
    if m > n {
        return None;
    }
    let last = n - m;
    let mut k: usize = 0;
    loop
        invariant
            n == hay.len(),
            m == needle.len(),
            m <= n,
            last == n - m,
            k <= last,
            forall|t: int| 0 <= t < k ==> !#[trigger] occurs_at(needle@, hay@, t),
        decreases last - k,
    {
        if matches_at(hay, needle, k) {
            proof {
                assert(occurs_at(needle@, hay@, k as int));
                assert(hay@.subrange(k as int, k + needle@.len()) == needle@);
                let c = choose|c: int|
                    occurs_at(needle@, hay@, c) && forall|j: int|
                        0 <= j < c ==> !#[trigger] occurs_at(needle@, hay@, j);
                if c < k {
                    assert(!occurs_at(needle@, hay@, c));
                } else if k < c {
                    assert(!occurs_at(needle@, hay@, k as int));
                }
            }
            return Some(k);
        }
        if k == last {
            proof {
                if is_substring(needle@, hay@) {
                    let w = choose|w: int|
                        0 <= w && w + needle@.len() <= hay@.len() && #[trigger] hay@.subrange(
                            w,
                            w + needle@.len(),
                        ) == needle@;
                    assert(occurs_at(needle@, hay@, w));
                    assert(!occurs_at(needle@, hay@, w));
                }
            }
            return None;
        }
        k = k + 1;
    }
}

/// At most the first `max_chars` characters of `s`; where `s` has more,
/// three dots after them.
pub open spec fn shortened(s: Seq<char>, max_chars: int) -> Seq<char> {
    if s.len() <= max_chars {
        s
    } else {
        s.take(max_chars) + "..."@
    }
}

/// Shortens `s` to `max_chars` characters for display.
pub fn truncate(s: &str, max_chars: usize) -> (r: String)
    ensures
        r@ == shortened(s@, max_chars as int),
{
    let chars = chars_of(s);
    if chars.len() <= max_chars {
        String::from_str(s)
    } else {
        let head = string_of(&chars, 0, max_chars);
        assert(chars@.subrange(0, max_chars as int) == chars@.take(max_chars as int));
        head.concat("...")
    }
}

} // verus!
