//! Cutting a text into pieces and putting pieces together.
use crate::text::{chars_of, is_space, space};
use vstd::prelude::*;
use vstd::slice::slice_subrange;

verus! {

// ---------------------------------------------------------------- searching

/// The index of the first `c`, or the length where there is none.
pub open spec fn index_of(s: Seq<char>, c: char) -> int
    decreases s.len(),
{
    if s.len() == 0 || s[0] == c {
        0
    } else {
        1 + index_of(s.skip(1), c)
    }
}

/// The index found is the first one, and it is within the text.
pub proof fn lemma_index_of_first(s: Seq<char>, c: char)
    ensures
        0 <= index_of(s, c) <= s.len(),
        index_of(s, c) < s.len() ==> s[index_of(s, c)] == c,
        forall|i: int| 0 <= i < index_of(s, c) ==> #[trigger] s[i] != c,
    decreases s.len(),
{
    if s.len() == 0 || s[0] == c {
    } else {
        let rest = s.skip(1);
        lemma_index_of_first(rest, c);
        assert forall|i: int| 0 <= i < index_of(s, c) implies #[trigger] s[i] != c by {
            if i > 0 {
                assert(rest[i - 1] == s[i]);
            }
        }
    }
}

/// The index of the first `c` is determined by what stands before it.
pub proof fn lemma_index_of_is(s: Seq<char>, c: char, i: int)
    requires
        0 <= i <= s.len(),
        i < s.len() ==> s[i] == c,
        forall|j: int| 0 <= j < i ==> #[trigger] s[j] != c,
    ensures
        index_of(s, c) == i,
{
    lemma_index_of_first(s, c);
    let k = index_of(s, c);
    if k < i {
        assert(s[k] != c);
    } else if i < k {
        assert(s[i] != c);
    }
}

/// The index of the first `c` in a slice, or its length.
pub fn find(s: &[char], c: char) -> (r: usize)
    ensures
        r == index_of(s@, c),
        r <= s@.len(),
{
    let mut i: usize = 0;
    while i < s.len() && s[i] != c
        invariant
            i <= s.len(),
            forall|j: int| 0 <= j < i ==> #[trigger] s@[j] != c,
        decreases s.len() - i,
    {
        i += 1;
    }
    proof {
        lemma_index_of_is(s@, c, i as int);
    }
    i
}

/// Whether `part` is a prefix of `s`.
pub fn starts_with(s: &[char], part: &str) -> (r: bool)
    ensures
        r == part@.is_prefix_of(s@),
{
    let p = chars_of(part);
    if p.len() > s.len() {
        return false;
    }
    let head = slice_subrange(s, 0, p.len());
    crate::text::same_chars(head, &p)
}

// ---------------------------------------------------------------- trimming

pub open spec fn trim_start(s: Seq<char>) -> Seq<char>
    decreases s.len(),
{
    if s.len() > 0 && space(s[0]) {
        trim_start(s.skip(1))
    } else {
        s
    }
}

pub open spec fn trim_end(s: Seq<char>) -> Seq<char>
    decreases s.len(),
{
    if s.len() > 0 && space(s.last()) {
        trim_end(s.drop_last())
    } else {
        s
    }
}

/// A text without the white space at either end.
pub open spec fn trimmed(s: Seq<char>) -> Seq<char> {
    trim_end(trim_start(s))
}

/// A slice without its leading white space.
pub fn trim_left(s: &[char]) -> (r: &[char])
    ensures
        r@ == trim_start(s@),
{
    let mut i: usize = 0;
    assert(s@.skip(0) == s@);
    while i < s.len() && is_space(s[i])
        invariant
            i <= s.len(),
            trim_start(s@) == trim_start(s@.skip(i as int)),
        decreases s.len() - i,
    {
        assert(s@.skip(i as int).skip(1) == s@.skip(i + 1));
        i += 1;
    }
    slice_subrange(s, i, s.len())
}

/// A slice without the white space at either end.
pub fn trim(s: &[char]) -> (r: &[char])
    ensures
        r@ == trimmed(s@),
{
    let t = trim_left(s);
    let mut n: usize = t.len();
    assert(t@.take(n as int) == t@);
    while n > 0 && is_space(t[n - 1])
        invariant
            n <= t.len(),
            trim_end(t@) == trim_end(t@.take(n as int)),
        decreases n,
    {
        assert(t@.take(n as int).drop_last() == t@.take(n - 1));
        n -= 1;
    }
    slice_subrange(t, 0, n)
}

/// A text without its leading run of `c`.
pub open spec fn without_leading(s: Seq<char>, c: char) -> Seq<char>
    decreases s.len(),
{
    if s.len() > 0 && s[0] == c {
        without_leading(s.skip(1), c)
    } else {
        s
    }
}

/// A text without its trailing run of `c`.
pub open spec fn without_trailing(s: Seq<char>, c: char) -> Seq<char>
    decreases s.len(),
{
    if s.len() > 0 && s.last() == c {
        without_trailing(s.drop_last(), c)
    } else {
        s
    }
}

/// A slice without its leading run of `c`.
pub fn drop_leading(s: &[char], c: char) -> (r: &[char])
    ensures
        r@ == without_leading(s@, c),
{
    let mut i: usize = 0;
    assert(s@.skip(0) == s@);
    while i < s.len() && s[i] == c
        invariant
            i <= s.len(),
            without_leading(s@, c) == without_leading(s@.skip(i as int), c),
        decreases s.len() - i,
    {
        assert(s@.skip(i as int).skip(1) == s@.skip(i + 1));
        i += 1;
    }
    slice_subrange(s, i, s.len())
}

/// A slice without its trailing run of `c`.
pub fn drop_trailing(s: &[char], c: char) -> (r: &[char])
    ensures
        r@ == without_trailing(s@, c),
{
    let mut n: usize = s.len();
    assert(s@.take(n as int) == s@);
    while n > 0 && s[n - 1] == c
        invariant
            n <= s.len(),
            without_trailing(s@, c) == without_trailing(s@.take(n as int), c),
        decreases n,
    {
        assert(s@.take(n as int).drop_last() == s@.take(n - 1));
        n -= 1;
    }
    slice_subrange(s, 0, n)
}

// ---------------------------------------------------------------- splitting

/// What the pieces of a vector of slices spell.
pub open spec fn views(v: Seq<&[char]>) -> Seq<Seq<char>> {
    Seq::new(v.len(), |i: int| v[i]@)
}

/// What a vector of texts spells.
pub open spec fn texts(v: Seq<String>) -> Seq<Seq<char>> {
    Seq::new(v.len(), |i: int| v[i]@)
}

/// The pieces between the occurrences of `sep`; one more than there are occurrences.
pub open spec fn split_at_each(s: Seq<char>, sep: char) -> Seq<Seq<char>>
    decreases s.len(),
{
    let i = index_of(s, sep);
    if 0 <= i < s.len() {
        seq![s.take(i)] + split_at_each(s.skip(i + 1), sep)
    } else {
        seq![s]
    }
}

/// The pieces of a slice between the occurrences of `sep`.
pub fn split<'a>(s: &'a [char], sep: char) -> (r: Vec<&'a [char]>)
    ensures
        views(r@) == split_at_each(s@, sep),
        r@.len() > 0,
{
    let mut out: Vec<&'a [char]> = Vec::new();
    let mut start: usize = 0;
    assert(s@.skip(0) == s@);
    assert(views(out@) + split_at_each(s@, sep) == split_at_each(s@, sep));
    loop
        invariant
            start <= s.len(),
            views(out@) + split_at_each(s@.skip(start as int), sep) == split_at_each(s@, sep),
        decreases s.len() - start,
    {
        let rest = slice_subrange(s, start, s.len());
        assert(rest@ == s@.skip(start as int));
        let i = find(rest, sep);
        let ghost before = views(out@);
        if i < rest.len() {
            let piece = slice_subrange(rest, 0, i);
            out.push(piece);
            proof {
                assert(views(out@) == before.push(rest@.take(i as int)));
                assert(s@.skip(start + i + 1) == rest@.skip(i + 1));
                assert(before + (seq![rest@.take(i as int)] + split_at_each(rest@.skip(i + 1), sep))
                    == before.push(rest@.take(i as int)) + split_at_each(rest@.skip(i + 1), sep));
            }
            start = start + i + 1;
        } else {
            out.push(rest);
            proof {
                assert(views(out@) == before.push(rest@));
                assert(before + seq![rest@] == before.push(rest@));
            }
            return out;
        }
    }
}

/// What stands before and after the first `sep`, where there is one.
pub open spec fn split_first(s: Seq<char>, sep: char) -> Option<(Seq<char>, Seq<char>)> {
    let i = index_of(s, sep);
    if 0 <= i < s.len() {
        Some((s.take(i), s.skip(i + 1)))
    } else {
        None
    }
}

/// What stands before and after the first `sep` in a slice.
pub fn split_once<'a>(s: &'a [char], sep: char) -> (r: Option<(&'a [char], &'a [char])>)
    ensures
        match r {
            Some((a, b)) => split_first(s@, sep) == Some((a@, b@)),
            None => split_first(s@, sep) is None,
        },
{
    let i = find(s, sep);
    if i < s.len() {
        let a = slice_subrange(s, 0, i);
        let b = slice_subrange(s, i + 1, s.len());
        assert(a@ == s@.take(i as int));
        assert(b@ == s@.skip(i + 1));
        Some((a, b))
    } else {
        None
    }
}

/// A line without the carriage return that belongs to its line ending.
pub open spec fn without_return(s: Seq<char>) -> Seq<char> {
    if s.len() > 0 && s.last() == '\r' {
        s.drop_last()
    } else {
        s
    }
}

/// The lines of a text: each ends at `\n` or `\r\n`, and the last ending is optional.
pub open spec fn lines(s: Seq<char>) -> Seq<Seq<char>>
    decreases s.len(),
{
    let i = index_of(s, '\n');
    if s.len() == 0 {
        seq![]
    } else if 0 <= i < s.len() {
        seq![without_return(s.take(i))] + lines(s.skip(i + 1))
    } else {
        seq![s]
    }
}

/// The lines of a slice.
pub fn lines_of<'a>(s: &'a [char]) -> (r: Vec<&'a [char]>)
    ensures
        views(r@) == lines(s@),
{
    let mut out: Vec<&'a [char]> = Vec::new();
    let mut start: usize = 0;
    assert(s@.skip(0) == s@);
    assert(views(out@) + lines(s@) == lines(s@));
    while start < s.len()
        invariant
            start <= s.len(),
            views(out@) + lines(s@.skip(start as int)) == lines(s@),
        decreases s.len() - start,
    {
        let rest = slice_subrange(s, start, s.len());
        assert(rest@ == s@.skip(start as int));
        let i = find(rest, '\n');
        let ghost before = views(out@);
        if i < rest.len() {
            let n: usize = if i > 0 && rest[i - 1] == '\r' {
                i - 1
            } else {
                i
            };
            let piece = slice_subrange(rest, 0, n);
            assert(piece@ == without_return(rest@.take(i as int)));
            out.push(piece);
            proof {
                assert(views(out@) == before.push(piece@));
                assert(s@.skip(start + i + 1) == rest@.skip(i + 1));
                assert(before + (seq![piece@] + lines(rest@.skip(i + 1))) == before.push(piece@)
                    + lines(rest@.skip(i + 1)));
            }
            start = start + i + 1;
        } else {
            out.push(rest);
            proof {
                assert(views(out@) == before.push(rest@));
                assert(before + seq![rest@] == before.push(rest@));
                assert(s@.skip(s@.len() as int) == Seq::<char>::empty());
                assert(before.push(rest@) + lines(Seq::<char>::empty()) == before.push(rest@));
            }
            start = s.len();
        }
    }
    assert(s@.skip(s@.len() as int) == Seq::<char>::empty());
    assert(views(out@) + lines(Seq::<char>::empty()) == views(out@));
    out
}

/// How many characters precede the first white space.
pub open spec fn word_len(s: Seq<char>) -> int
    decreases s.len(),
{
    if s.len() == 0 || space(s[0]) {
        0
    } else {
        1 + word_len(s.skip(1))
    }
}

proof fn lemma_word_len(s: Seq<char>)
    ensures
        0 <= word_len(s) <= s.len(),
        s.len() > 0 && !space(s[0]) ==> word_len(s) > 0,
    decreases s.len(),
{
    if s.len() > 0 && !space(s[0]) {
        lemma_word_len(s.skip(1));
    }
}

proof fn lemma_trim_start_is_tail(s: Seq<char>)
    ensures
        trim_start(s).len() <= s.len(),
        trim_start(s) == s.skip(s.len() - trim_start(s).len()),
        trim_start(s).len() > 0 ==> !space(trim_start(s)[0]),
    decreases s.len(),
{
    if s.len() > 0 && space(s[0]) {
        lemma_trim_start_is_tail(s.skip(1));
        let n = trim_start(s).len();
        assert(s.skip(1).skip(s.len() - 1 - n) =~= s.skip(s.len() - n));
    } else {
        assert(s.skip(0) =~= s);
    }
}

/// The non-empty pieces between runs of white space.
pub open spec fn words(s: Seq<char>) -> Seq<Seq<char>>
    decreases s.len(),
    via words_decreases
{
    let t = trim_start(s);
    if t.len() == 0 {
        seq![]
    } else {
        seq![t.take(word_len(t))] + words(t.skip(word_len(t)))
    }
}

#[via_fn]
proof fn words_decreases(s: Seq<char>) {
    lemma_trim_start_is_tail(s);
    lemma_word_len(trim_start(s));
}

fn leading_word(s: &[char]) -> (r: usize)
    ensures
        r == word_len(s@),
        r <= s.len(),
{
    let mut i: usize = 0;
    assert(s@.skip(0) == s@);
    while i < s.len() && !is_space(s[i])
        invariant
            i <= s.len(),
            word_len(s@) == i + word_len(s@.skip(i as int)),
        decreases s.len() - i,
    {
        assert(s@.skip(i as int).skip(1) == s@.skip(i + 1));
        i += 1;
    }
    i
}

/// The non-empty pieces of a slice between runs of white space.
pub fn words_of<'a>(s: &'a [char]) -> (r: Vec<&'a [char]>)
    ensures
        views(r@) == words(s@),
{
    let mut out: Vec<&'a [char]> = Vec::new();
    let mut rest: &'a [char] = trim_left(s);
    assert(views(out@) + words(s@) == words(s@));
    proof {
        lemma_trim_start_is_tail(s@);
        lemma_words_trimmed(s@);
    }
    while rest.len() > 0
        invariant
            views(out@) + words(rest@) == words(s@),
            rest@ == trim_start(rest@),
        decreases rest.len(),
    {
        let n = leading_word(rest);
        let word = slice_subrange(rest, 0, n);
        let ghost before = views(out@);
        out.push(word);
        let tail = slice_subrange(rest, n, rest.len());
        let next = trim_left(tail);
        proof {
            lemma_trim_start_is_tail(rest@);
            lemma_word_len(rest@);
            lemma_trim_start_is_tail(tail@);
            assert(word@ == rest@.take(n as int));
            assert(tail@ == rest@.skip(n as int));
            assert(views(out@) == before.push(word@));
            assert(before + (seq![word@] + words(tail@)) == before.push(word@) + words(tail@));
            lemma_words_trimmed(tail@);
        }
        rest = next;
    }
    assert(words(rest@) == Seq::<Seq<char>>::empty());
    assert(views(out@) + Seq::<Seq<char>>::empty() == views(out@));
    out
}

proof fn lemma_trim_start_idempotent(s: Seq<char>)
    ensures
        trim_start(trim_start(s)) == trim_start(s),
    decreases s.len(),
{
    if s.len() > 0 && space(s[0]) {
        lemma_trim_start_idempotent(s.skip(1));
    }
}

proof fn lemma_words_trimmed(s: Seq<char>)
    ensures
        words(trim_start(s)) == words(s),
        trim_start(trim_start(s)) == trim_start(s),
{
    lemma_trim_start_idempotent(s);
}

// ---------------------------------------------------------------- joining

/// The parts, with `sep` between each two neighbours.
pub open spec fn join(parts: Seq<Seq<char>>, sep: Seq<char>) -> Seq<char>
    decreases parts.len(),
{
    if parts.len() == 0 {
        seq![]
    } else if parts.len() == 1 {
        parts[0]
    } else {
        join(parts.drop_last(), sep) + sep + parts.last()
    }
}

/// The texts of a vector, with `sep` between each two neighbours.
pub fn join_texts(parts: &Vec<String>, sep: &str) -> (r: String)
    ensures
        r@ == join(texts(parts@), sep@),
{
    let mut out = String::new();
    for i in 0..parts.len()
        invariant
            out@ == join(texts(parts@).take(i as int), sep@),
    {
        if i > 0 {
            out.append(sep);
        }
        out.append(parts[i].as_str());
        proof {
            let all = texts(parts@);
            assert(all.take(i + 1).drop_last() == all.take(i as int));
            assert(all.take(i + 1).last() == parts@[i as int]@);
            if i == 0 {
                assert(out@ == parts@[0]@);
            }
        }
    }
    assert(texts(parts@).take(parts@.len() as int) == texts(parts@));
    out
}

// ---------------------------------------------------------------- line endings

/// A text with each `\r\n` replaced by `\n`.
pub open spec fn unix_endings(s: Seq<char>) -> Seq<char>
    decreases s.len(),
{
    if s.len() == 0 {
        seq![]
    } else if s.len() >= 2 && s[0] == '\r' && s[1] == '\n' {
        seq!['\n'] + unix_endings(s.skip(2))
    } else {
        seq![s[0]] + unix_endings(s.skip(1))
    }
}

/// A text with each `\n` replaced by `\r\n`.
pub open spec fn dos_endings(s: Seq<char>) -> Seq<char>
    decreases s.len(),
{
    if s.len() == 0 {
        seq![]
    } else if s[0] == '\n' {
        seq!['\r', '\n'] + dos_endings(s.skip(1))
    } else {
        seq![s[0]] + dos_endings(s.skip(1))
    }
}

/// Replaces each `\r\n` by `\n`.
pub fn to_unix_endings(s: &[char]) -> (r: String)
    ensures
        r@ == unix_endings(s@),
{
    let mut out = String::new();
    let mut i: usize = 0;
    assert(s@.skip(0) == s@);
    assert(out@ + unix_endings(s@) == unix_endings(s@));
    while i < s.len()
        invariant
            i <= s.len(),
            out@ + unix_endings(s@.skip(i as int)) == unix_endings(s@),
        decreases s.len() - i,
    {
        let ghost before = out@;
        let ghost rest = s@.skip(i as int);
        if s[i] == '\r' && i + 1 < s.len() && s[i + 1] == '\n' {
            out.push('\n');
            proof {
                assert(rest.skip(2) == s@.skip(i + 2));
                assert(before + (seq!['\n'] + unix_endings(rest.skip(2))) == before.push('\n')
                    + unix_endings(rest.skip(2)));
            }
            i += 2;
        } else {
            out.push(s[i]);
            proof {
                assert(rest.skip(1) == s@.skip(i + 1));
                assert(before + (seq![rest[0]] + unix_endings(rest.skip(1))) == before.push(rest[0])
                    + unix_endings(rest.skip(1)));
            }
            i += 1;
        }
    }
    assert(s@.skip(s@.len() as int) == Seq::<char>::empty());
    assert(out@ + unix_endings(Seq::<char>::empty()) == out@);
    out
}

/// Replaces each `\n` by `\r\n`.
pub fn to_dos_endings(s: &[char]) -> (r: String)
    ensures
        r@ == dos_endings(s@),
{
    let mut out = String::new();
    let mut i: usize = 0;
    assert(s@.skip(0) == s@);
    assert(out@ + dos_endings(s@) == dos_endings(s@));
    while i < s.len()
        invariant
            i <= s.len(),
            out@ + dos_endings(s@.skip(i as int)) == dos_endings(s@),
        decreases s.len() - i,
    {
        let ghost before = out@;
        let ghost rest = s@.skip(i as int);
        assert(rest.skip(1) == s@.skip(i + 1));
        if s[i] == '\n' {
            out.push('\r');
            out.push('\n');
            assert(before + (seq!['\r', '\n'] + dos_endings(rest.skip(1))) == before.push(
                '\r',
            ).push('\n') + dos_endings(rest.skip(1)));
        } else {
            out.push(s[i]);
            assert(before + (seq![rest[0]] + dos_endings(rest.skip(1))) == before.push(rest[0])
                + dos_endings(rest.skip(1)));
        }
        i += 1;
    }
    assert(s@.skip(s@.len() as int) == Seq::<char>::empty());
    assert(out@ + dos_endings(Seq::<char>::empty()) == out@);
    out
}

/// A text without carriage returns holds no `\r\n`, so normalising it leaves it alone.
pub proof fn unix_endings_keep_unix_text(s: Seq<char>)
    requires
        forall|i: int| 0 <= i < s.len() ==> #[trigger] s[i] != '\r',
    ensures
        unix_endings(s) == s,
    decreases s.len(),
{
    if s.len() > 0 {
        unix_endings_keep_unix_text(s.skip(1));
        assert(seq![s[0]] + s.skip(1) == s);
    } else {
        assert(s == Seq::<char>::empty());
    }
}

proof fn lemma_dos_start(s: Seq<char>)
    ensures
        dos_endings(s).len() > 0 ==> dos_endings(s)[0] != '\n',
        s.len() > 0 ==> dos_endings(s).len() > 0,
{
}

/// Showing a text with `\r\n` endings and reading it back gives the same text.
pub proof fn line_endings_round_trip(s: Seq<char>)
    ensures
        unix_endings(dos_endings(s)) == s,
    decreases s.len(),
{
    if s.len() > 0 {
        let rest = s.skip(1);
        line_endings_round_trip(rest);
        lemma_dos_start(rest);
        let shown = dos_endings(s);
        if s[0] == '\n' {
            assert(shown.skip(2) == dos_endings(rest));
            assert(seq!['\n'] + rest == s);
        } else {
            assert(shown[0] == s[0]);
            assert(shown.skip(1) == dos_endings(rest));
            assert(shown.len() > 1 ==> shown[1] == dos_endings(rest)[0]);
            assert(seq![s[0]] + rest == s);
        }
    } else {
        assert(s == Seq::<char>::empty());
    }
}

// ---------------------------------------------------------------- what pieces are made of

/// Whether a text does not hold a character.
pub open spec fn lacks(s: Seq<char>, c: char) -> bool {
    forall|i: int| 0 <= i < s.len() ==> #[trigger] s[i] != c
}

/// Whether a text begins and ends with something else than white space.
pub open spec fn tight(s: Seq<char>) -> bool {
    s.len() > 0 && !space(s[0]) && !space(s.last())
}

proof fn lemma_trim_end_is_head(s: Seq<char>)
    ensures
        trim_end(s).len() <= s.len(),
        trim_end(s) == s.take(trim_end(s).len() as int),
        trim_end(s).len() > 0 ==> !space(trim_end(s).last()),
    decreases s.len(),
{
    if s.len() > 0 && space(s.last()) {
        lemma_trim_end_is_head(s.drop_last());
        let n = trim_end(s).len() as int;
        assert(s.drop_last().take(n) =~= s.take(n));
    } else {
        assert(s.take(s.len() as int) =~= s);
    }
}

/// What is left after trimming is empty or tight, and made of the characters of the text.
pub proof fn lemma_trimmed(s: Seq<char>)
    ensures
        trimmed(s).len() > 0 ==> tight(trimmed(s)),
        forall|c: char| lacks(s, c) ==> #[trigger] lacks(trimmed(s), c),
{
    lemma_trim_start_is_tail(s);
    lemma_trim_end_is_head(trim_start(s));
    let a = s.len() - trim_start(s).len();
    let t = trimmed(s);
    assert forall|i: int| 0 <= i < t.len() implies t[i] == s[a + i] by {
        assert(t[i] == trim_start(s)[i]);
    }
    assert forall|c: char| lacks(s, c) implies #[trigger] lacks(trimmed(s), c) by {
        assert forall|i: int| 0 <= i < t.len() implies #[trigger] t[i] != c by {
            assert(s[a + i] != c);
        }
    }
}

/// A tight text is trimmed to itself.
pub proof fn lemma_tight_is_trimmed(s: Seq<char>)
    requires
        tight(s),
    ensures
        trimmed(s) == s,
{
}

/// A tight text with a space before or behind it is trimmed to itself.
pub proof fn lemma_padded_is_trimmed(s: Seq<char>)
    requires
        tight(s),
    ensures
        trimmed(seq![' '] + s) == s,
        trimmed(s + seq![' ']) == s,
{
    let before = seq![' '] + s;
    let behind = s + seq![' '];
    assert(before.skip(1) =~= s);
    assert(trim_start(before) == trim_start(s));
    assert(behind.drop_last() =~= s);
    assert(behind[0] == s[0]);
    assert(trim_end(behind) == trim_end(s));
}

/// No line of a text holds a line break.
pub proof fn lemma_lines_lack_breaks(s: Seq<char>)
    ensures
        forall|i: int| 0 <= i < lines(s).len() ==> lacks(#[trigger] lines(s)[i], '\n'),
    decreases s.len(),
{
    let k = index_of(s, '\n');
    lemma_index_of_first(s, '\n');
    if s.len() > 0 && k < s.len() {
        let rest = lines(s.skip(k + 1));
        let head = without_return(s.take(k));
        lemma_lines_lack_breaks(s.skip(k + 1));
        assert forall|i: int| 0 <= i < lines(s).len() implies lacks(
            #[trigger] lines(s)[i],
            '\n',
        ) by {
            if i == 0 {
                assert(lines(s)[0] == head);
                assert forall|j: int| 0 <= j < head.len() implies #[trigger] head[j] != '\n' by {
                    assert(head[j] == s[j]);
                }
            } else {
                assert(lines(s)[i] == rest[i - 1]);
            }
        }
    }
}

// ---------------------------------------------------------------- lines put together

/// Lines, each with a line break behind it.
pub open spec fn with_breaks(all: Seq<Seq<char>>) -> Seq<char>
    decreases all.len(),
{
    if all.len() == 0 {
        seq![]
    } else {
        all[0] + seq!['\n'] + with_breaks(all.skip(1))
    }
}

/// Whether a text can be one line: it holds no line break, nor a carriage return that a line break
/// behind it would take.
pub open spec fn one_line(s: Seq<char>) -> bool {
    lacks(s, '\n') && (s.len() > 0 ==> s.last() != '\r')
}

/// The lines of lines that were put together are the same lines.
pub proof fn lemma_lines_of_breaks(all: Seq<Seq<char>>)
    requires
        forall|i: int| 0 <= i < all.len() ==> one_line(#[trigger] all[i]),
    ensures
        lines(with_breaks(all)) == all,
    decreases all.len(),
{
    let s = with_breaks(all);
    if all.len() > 0 {
        let n = all[0].len() as int;
        let rest = all.skip(1);
        assert(one_line(all[0]));
        assert forall|j: int| 0 <= j < n implies #[trigger] s[j] != '\n' by {
            assert(s[j] == all[0][j]);
        }
        lemma_index_of_is(s, '\n', n);
        assert(s.take(n) =~= all[0]);
        assert(s.skip(n + 1) =~= with_breaks(rest));
        assert forall|i: int| 0 <= i < rest.len() implies one_line(#[trigger] rest[i]) by {
            assert(rest[i] == all[i + 1]);
        }
        lemma_lines_of_breaks(rest);
        assert(lines(s) == seq![all[0]] + rest);
        assert(seq![all[0]] + rest =~= all);
    } else {
        assert(lines(s) =~= all);
    }
}

/// Lines are put together piece by piece.
pub proof fn lemma_breaks_append(a: Seq<Seq<char>>, b: Seq<Seq<char>>)
    ensures
        with_breaks(a + b) == with_breaks(a) + with_breaks(b),
    decreases a.len(),
{
    if a.len() > 0 {
        lemma_breaks_append(a.skip(1), b);
        assert((a + b).skip(1) =~= a.skip(1) + b);
        assert(with_breaks(a + b) =~= with_breaks(a) + with_breaks(b));
    } else {
        assert(a + b =~= b);
        assert(with_breaks(a) + with_breaks(b) =~= with_breaks(b));
    }
}

/// Lines that are joined by line breaks, and a line break behind the last.
pub proof fn lemma_joined_lines(all: Seq<Seq<char>>)
    requires
        all.len() > 0,
    ensures
        join(all, seq!['\n']) + seq!['\n'] == with_breaks(all),
    decreases all.len(),
{
    if all.len() == 1 {
        assert(all.skip(1).len() == 0);
        assert(with_breaks(all.skip(1)) =~= Seq::<char>::empty());
        assert(with_breaks(all) =~= all[0] + seq!['\n']);
    } else {
        let head = all.drop_last();
        let tail = seq![all.last()];
        lemma_joined_lines(head);
        assert(head + tail =~= all);
        lemma_breaks_append(head, tail);
        assert(tail.skip(1).len() == 0);
        assert(with_breaks(tail.skip(1)) =~= Seq::<char>::empty());
        assert(with_breaks(tail) =~= all.last() + seq!['\n']);
        assert(join(all, seq!['\n']) + seq!['\n'] =~= (join(head, seq!['\n']) + seq!['\n']) + (
        all.last() + seq!['\n']));
    }
}

// ---------------------------------------------------------------- lists taken apart again

proof fn lemma_split_last(a: Seq<char>, b: Seq<char>, sep: char)
    requires
        lacks(b, sep),
    ensures
        split_at_each(a + seq![sep] + b, sep) == split_at_each(a, sep).push(b),
    decreases a.len(),
{
    let s = a + seq![sep] + b;
    let i = index_of(a, sep);
    lemma_index_of_first(a, sep);
    lemma_index_of_first(b, sep);
    assert(split_at_each(b, sep) =~= seq![b]) by {
        if index_of(b, sep) < b.len() {
            assert(b[index_of(b, sep)] != sep);
        }
    }
    assert forall|j: int| 0 <= j < i implies #[trigger] s[j] != sep by {
        assert(s[j] == a[j]);
    }
    lemma_index_of_is(s, sep, i);
    if i < a.len() {
        lemma_split_last(a.skip(i + 1), b, sep);
        assert(s.take(i) =~= a.take(i));
        assert(s.skip(i + 1) =~= a.skip(i + 1) + seq![sep] + b);
        assert(seq![a.take(i)] + split_at_each(a.skip(i + 1), sep).push(b) =~= (seq![a.take(i)]
            + split_at_each(a.skip(i + 1), sep)).push(b));
    } else {
        assert(s.take(i) =~= a);
        assert(s.skip(i + 1) =~= b);
        assert(split_at_each(a, sep) == seq![a]);
        assert(seq![a] + seq![b] =~= seq![a].push(b));
    }
}

/// The pieces of a list that is joined by commas and spaces are its parts, each but the first behind
/// a space.
pub proof fn lemma_split_joined(parts: Seq<Seq<char>>)
    requires
        parts.len() > 0,
        forall|i: int| 0 <= i < parts.len() ==> lacks(#[trigger] parts[i], ','),
    ensures
        split_at_each(join(parts, seq![',', ' ']), ',') == Seq::new(
            parts.len(),
            |i: int|
                if i == 0 {
                    parts[0]
                } else {
                    seq![' '] + parts[i]
                },
        ),
    decreases parts.len(),
{
    let whole = Seq::new(
        parts.len(),
        |i: int|
            if i == 0 {
                parts[0]
            } else {
                seq![' '] + parts[i]
            },
    );
    if parts.len() == 1 {
        lemma_index_of_first(parts[0], ',');
        assert(index_of(parts[0], ',') == parts[0].len()) by {
            if index_of(parts[0], ',') < parts[0].len() {
                assert(parts[0][index_of(parts[0], ',')] != ',');
            }
        }
        assert(split_at_each(parts[0], ',') =~= whole);
    } else {
        let head = parts.drop_last();
        let last = parts.last();
        assert forall|i: int| 0 <= i < head.len() implies lacks(#[trigger] head[i], ',') by {
            assert(head[i] == parts[i]);
        }
        lemma_split_joined(head);
        let tail = seq![' '] + last;
        assert(lacks(tail, ',')) by {
            assert(lacks(parts[parts.len() - 1], ','));
            assert forall|i: int| 0 <= i < tail.len() implies #[trigger] tail[i] != ',' by {
                if i > 0 {
                    assert(tail[i] == last[i - 1]);
                }
            }
        }
        let before = join(head, seq![',', ' ']);
        lemma_split_last(before, tail, ',');
        assert(join(parts, seq![',', ' ']) =~= before + seq![','] + tail);
        assert(split_at_each(before, ',').push(tail) =~= whole);
    }
}

// ---------------------------------------------------------------- what the pieces are

/// A text is taken apart at each separator: no piece holds one, and with a separator between each
/// two neighbours the pieces are the text again.
pub proof fn pieces_are_joined_again(s: Seq<char>, sep: char)
    ensures
        split_at_each(s, sep).len() > 0,
        forall|i: int|
            0 <= i < split_at_each(s, sep).len() ==> lacks(#[trigger] split_at_each(s, sep)[i], sep),
        join(split_at_each(s, sep), seq![sep]) == s,
    decreases s.len(),
{
    let i = index_of(s, sep);
    lemma_index_of_first(s, sep);
    let all = split_at_each(s, sep);
    if i < s.len() {
        let rest = split_at_each(s.skip(i + 1), sep);
        pieces_are_joined_again(s.skip(i + 1), sep);
        assert forall|j: int| 0 <= j < all.len() implies lacks(#[trigger] all[j], sep) by {
            if j > 0 {
                assert(all[j] == rest[j - 1]);
            } else {
                assert(all[0] == s.take(i));
            }
        }
        lemma_join_first(s.take(i), rest, seq![sep]);
        assert(s =~= s.take(i) + seq![sep] + s.skip(i + 1));
    } else {
        assert(lacks(s, sep));
    }
}

proof fn lemma_join_first(first: Seq<char>, rest: Seq<Seq<char>>, sep: Seq<char>)
    requires
        rest.len() > 0,
    ensures
        join(seq![first] + rest, sep) == first + sep + join(rest, sep),
    decreases rest.len(),
{
    let all = seq![first] + rest;
    assert(all.last() == rest.last());
    if rest.len() == 1 {
        assert(all.drop_last() =~= seq![first]);
        assert(join(seq![first], sep) == first);
    } else {
        lemma_join_first(first, rest.drop_last(), sep);
        assert(all.drop_last() =~= seq![first] + rest.drop_last());
        assert(join(all, sep) =~= first + sep + join(rest, sep));
    }
}

/// Pieces without a separator are what their text is taken apart into.
pub proof fn joined_pieces_are_taken_apart(parts: Seq<Seq<char>>, sep: char)
    requires
        parts.len() > 0,
        forall|i: int| 0 <= i < parts.len() ==> lacks(#[trigger] parts[i], sep),
    ensures
        split_at_each(join(parts, seq![sep]), sep) == parts,
    decreases parts.len(),
{
    if parts.len() == 1 {
        lemma_index_of_first(parts[0], sep);
        if index_of(parts[0], sep) < parts[0].len() {
            assert(parts[0][index_of(parts[0], sep)] != sep);
        }
        assert(split_at_each(parts[0], sep) =~= parts);
    } else {
        let head = parts.drop_last();
        assert forall|i: int| 0 <= i < head.len() implies lacks(#[trigger] head[i], sep) by {
            assert(head[i] == parts[i]);
        }
        joined_pieces_are_taken_apart(head, sep);
        assert(lacks(parts[parts.len() - 1], sep));
        lemma_split_last(join(head, seq![sep]), parts.last(), sep);
        assert(head.push(parts.last()) =~= parts);
    }
}

/// The first separator parts a text in two: what stands before it holds none.
pub proof fn first_separators_part_texts(s: Seq<char>, sep: char)
    ensures
        split_first(s, sep) is None <==> lacks(s, sep),
        split_first(s, sep) matches Some((a, b)) ==> lacks(a, sep) && s == a + seq![sep] + b,
{
    lemma_index_of_first(s, sep);
    let i = index_of(s, sep);
    if i < s.len() {
        assert(s =~= s.take(i) + seq![sep] + s.skip(i + 1));
        assert(!lacks(s, sep)) by {
            assert(s[i] == sep);
        }
    }
}

/// Trimming takes white space from either end, all of it and nothing else.
pub proof fn trimming_takes_white_space_only(s: Seq<char>)
    ensures
        exists|a: int, b: int| #[trigger] trims_to(s, trimmed(s), a, b),
{
    lemma_trim_start_spaces(s);
    lemma_trim_start_is_tail(s);
    lemma_trim_end_spaces(trim_start(s));
    lemma_trim_end_is_head(trim_start(s));
    let a = s.len() - trim_start(s).len();
    let b = a + trimmed(s).len();
    assert(trimmed(s) =~= s.subrange(a, b));
    assert forall|i: int| b <= i < s.len() implies space(#[trigger] s[i]) by {
        assert(s[i] == trim_start(s)[i - a]);
    }
    if trimmed(s).len() > 0 {
        lemma_trimmed(s);
    }
    assert(trims_to(s, trimmed(s), a, b));
}

/// Whether a text is what stands between two places of another, with white space around it and
/// none at its own ends.
pub open spec fn trims_to(s: Seq<char>, t: Seq<char>, a: int, b: int) -> bool {
    &&& 0 <= a <= b <= s.len()
    &&& t == s.subrange(a, b)
    &&& forall|i: int| 0 <= i < a ==> space(#[trigger] s[i])
    &&& forall|i: int| b <= i < s.len() ==> space(#[trigger] s[i])
    &&& t.len() > 0 ==> !space(t[0]) && !space(t[t.len() - 1])
}

proof fn lemma_trim_start_spaces(s: Seq<char>)
    ensures
        trim_start(s).len() <= s.len(),
        forall|i: int| 0 <= i < s.len() - trim_start(s).len() ==> space(#[trigger] s[i]),
    decreases s.len(),
{
    if s.len() > 0 && space(s[0]) {
        lemma_trim_start_spaces(s.skip(1));
        assert forall|i: int| 0 <= i < s.len() - trim_start(s).len() implies space(
            #[trigger] s[i],
        ) by {
            if i > 0 {
                assert(s.skip(1)[i - 1] == s[i]);
            }
        }
    }
}

proof fn lemma_trim_end_spaces(s: Seq<char>)
    ensures
        trim_end(s).len() <= s.len(),
        forall|i: int| trim_end(s).len() <= i < s.len() ==> space(#[trigger] s[i]),
    decreases s.len(),
{
    if s.len() > 0 && space(s.last()) {
        lemma_trim_end_spaces(s.drop_last());
        assert forall|i: int| trim_end(s).len() <= i < s.len() implies space(#[trigger] s[i]) by {
            if i < s.len() - 1 {
                assert(s.drop_last()[i] == s[i]);
            }
        }
    }
}

/// Dropping a character from the front or from the end takes all of its run, and nothing else.
pub proof fn dropped_runs_are_whole(s: Seq<char>, c: char)
    ensures
        without_leading(s, c).len() <= s.len(),
        without_leading(s, c) == s.skip(s.len() - without_leading(s, c).len()),
        forall|i: int| 0 <= i < s.len() - without_leading(s, c).len() ==> #[trigger] s[i] == c,
        without_leading(s, c).len() > 0 ==> without_leading(s, c)[0] != c,
        without_trailing(s, c).len() <= s.len(),
        without_trailing(s, c) == s.take(without_trailing(s, c).len() as int),
        forall|i: int| without_trailing(s, c).len() <= i < s.len() ==> #[trigger] s[i] == c,
        without_trailing(s, c).len() > 0 ==> without_trailing(s, c).last() != c,
{
    lemma_leading_run(s, c);
    lemma_trailing_run(s, c);
}

proof fn lemma_leading_run(s: Seq<char>, c: char)
    ensures
        without_leading(s, c).len() <= s.len(),
        without_leading(s, c) == s.skip(s.len() - without_leading(s, c).len()),
        forall|i: int| 0 <= i < s.len() - without_leading(s, c).len() ==> #[trigger] s[i] == c,
        without_leading(s, c).len() > 0 ==> without_leading(s, c)[0] != c,
    decreases s.len(),
{
    if s.len() > 0 && s[0] == c {
        let rest = s.skip(1);
        lemma_leading_run(rest, c);
        let n = without_leading(s, c).len();
        assert(rest.skip(rest.len() - n) =~= s.skip(s.len() - n));
        assert forall|i: int| 0 <= i < s.len() - n implies #[trigger] s[i] == c by {
            if i > 0 {
                assert(rest[i - 1] == s[i]);
            }
        }
    } else {
        assert(s.skip(0) =~= s);
    }
}

proof fn lemma_trailing_run(s: Seq<char>, c: char)
    ensures
        without_trailing(s, c).len() <= s.len(),
        without_trailing(s, c) == s.take(without_trailing(s, c).len() as int),
        forall|i: int| without_trailing(s, c).len() <= i < s.len() ==> #[trigger] s[i] == c,
        without_trailing(s, c).len() > 0 ==> without_trailing(s, c).last() != c,
    decreases s.len(),
{
    if s.len() > 0 && s.last() == c {
        let rest = s.drop_last();
        lemma_trailing_run(rest, c);
        let n = without_trailing(s, c).len() as int;
        assert(rest.take(n) =~= s.take(n));
        assert forall|i: int| n <= i < s.len() implies #[trigger] s[i] == c by {
            if i < s.len() - 1 {
                assert(rest[i] == s[i]);
            }
        }
    } else {
        assert(s.take(s.len() as int) =~= s);
    }
}

/// The words of a text are not empty and hold no white space.
pub proof fn words_hold_no_white_space(s: Seq<char>)
    ensures
        forall|i: int|
            0 <= i < words(s).len() ==> (#[trigger] words(s)[i]).len() > 0 && forall|j: int|
                0 <= j < words(s)[i].len() ==> !space(#[trigger] words(s)[i][j]),
    decreases s.len(),
{
    let t = trim_start(s);
    lemma_trim_start_is_tail(s);
    lemma_word_len(t);
    if t.len() > 0 {
        let first = t.take(word_len(t));
        let rest = t.skip(word_len(t));
        lemma_word_is_tight(t);
        words_hold_no_white_space(rest);
        assert forall|i: int| 0 <= i < words(s).len() implies (#[trigger] words(s)[i]).len() > 0
            && forall|j: int| 0 <= j < words(s)[i].len() ==> !space(#[trigger] words(s)[i][j]) by {
            if i == 0 {
                assert(words(s)[0] == first);
            } else {
                assert(words(s)[i] == words(rest)[i - 1]);
            }
        }
    }
}

proof fn lemma_word_is_tight(s: Seq<char>)
    ensures
        0 <= word_len(s) <= s.len(),
        forall|i: int| 0 <= i < word_len(s) ==> !space(#[trigger] s[i]),
        word_len(s) < s.len() ==> space(s[word_len(s)]),
    decreases s.len(),
{
    if s.len() > 0 && !space(s[0]) {
        let rest = s.skip(1);
        lemma_word_is_tight(rest);
        assert forall|i: int| 0 <= i < word_len(s) implies !space(#[trigger] s[i]) by {
            if i > 0 {
                assert(rest[i - 1] == s[i]);
            }
        }
        if word_len(s) < s.len() {
            assert(rest[word_len(s) - 1] == s[word_len(s)]);
        }
    }
}

/// A word, then white space, then the words of the rest: white space before a word is no part of
/// it.
pub proof fn words_stand_between_white_space(before: Seq<char>, word: Seq<char>, rest: Seq<char>)
    requires
        forall|i: int| 0 <= i < before.len() ==> space(#[trigger] before[i]),
        word.len() > 0,
        forall|i: int| 0 <= i < word.len() ==> !space(#[trigger] word[i]),
        rest.len() > 0 ==> space(rest[0]),
    ensures
        words(before + word + rest) == seq![word] + words(rest),
        words(before) == Seq::<Seq<char>>::empty(),
    decreases before.len(),
{
    let s = before + word + rest;
    if before.len() > 0 {
        assert(space(before[0]));
        assert(s[0] == before[0]);
        assert(s.skip(1) =~= before.skip(1) + word + rest);
        assert forall|i: int| 0 <= i < before.skip(1).len() implies space(
            #[trigger] before.skip(1)[i],
        ) by {
            assert(before[i + 1] == before.skip(1)[i]);
        }
        words_stand_between_white_space(before.skip(1), word, rest);
        assert(trim_start(s) == trim_start(s.skip(1)));
        assert(trim_start(before) == trim_start(before.skip(1)));
    } else {
        assert(s =~= word + rest);
        assert(s[0] == word[0]);
        lemma_word_is_tight(s);
        assert(word_len(s) == word.len()) by {
            if word_len(s) < word.len() {
                assert(s[word_len(s)] == word[word_len(s)]);
            } else if word_len(s) > word.len() {
                assert(s[word.len() as int] == rest[0]);
            }
        }
        assert(s.take(word.len() as int) =~= word);
        assert(s.skip(word.len() as int) =~= rest);
    }
}

/// A line break ends a line, and one carriage return before it is no part of the line; the lines
/// behind it follow. A text without one is a line, whatever it ends with.
pub proof fn breaks_end_lines(line: Seq<char>, rest: Seq<char>)
    requires
        lacks(line, '\n'),
    ensures
        line.len() == 0 || line.last() != '\r' ==> lines(line + seq!['\n'] + rest) == seq![line]
            + lines(rest),
        lines(line + seq!['\r', '\n'] + rest) == seq![line] + lines(rest),
        line.len() > 0 ==> lines(line) == seq![line],
        lines(Seq::empty()) == Seq::<Seq<char>>::empty(),
{
    let s = line + seq!['\n'] + rest;
    let n = line.len() as int;
    assert forall|j: int| 0 <= j < n implies #[trigger] s[j] != '\n' by {
        assert(s[j] == line[j]);
    }
    lemma_index_of_is(s, '\n', n);
    assert(s.take(n) =~= line);
    assert(s.skip(n + 1) =~= rest);
    let d = line + seq!['\r', '\n'] + rest;
    assert forall|j: int| 0 <= j < n + 1 implies #[trigger] d[j] != '\n' by {
        if j < n {
            assert(d[j] == line[j]);
        }
    }
    lemma_index_of_is(d, '\n', n + 1);
    assert(d.take(n + 1) =~= line.push('\r'));
    assert(line.push('\r').drop_last() =~= line);
    assert(d.skip(n + 2) =~= rest);
    lemma_index_of_first(line, '\n');
    if index_of(line, '\n') < line.len() {
        assert(line[index_of(line, '\n')] != '\n');
    }
}

/// A carriage return goes where a line break follows it, and stays elsewhere; nothing else changes.
pub proof fn unix_endings_take_returns_before_breaks(a: Seq<char>, b: Seq<char>)
    requires
        lacks(a, '\r'),
    ensures
        unix_endings(a + seq!['\r', '\n'] + b) == a + seq!['\n'] + unix_endings(b),
        b.len() == 0 || b[0] != '\n' ==> unix_endings(a + seq!['\r'] + b) == a + seq!['\r']
            + unix_endings(b),
        unix_endings(a) == a,
    decreases a.len(),
{
    if a.len() == 0 {
        let s = a + seq!['\r', '\n'] + b;
        assert(s.skip(2) =~= b);
        assert(unix_endings(s) =~= a + seq!['\n'] + unix_endings(b));
        let t = a + seq!['\r'] + b;
        assert(t.skip(1) =~= b);
        assert(b.len() > 0 ==> t[1] == b[0]);
        if b.len() == 0 || b[0] != '\n' {
            assert(unix_endings(t) =~= a + seq!['\r'] + unix_endings(b));
        }
        assert(unix_endings(a) =~= a);
    } else {
        let rest = a.skip(1);
        assert(a[0] != '\r');
        assert forall|i: int| 0 <= i < rest.len() implies #[trigger] rest[i] != '\r' by {
            assert(rest[i] == a[i + 1]);
        }
        unix_endings_take_returns_before_breaks(rest, b);
        let s = a + seq!['\r', '\n'] + b;
        assert(s.skip(1) =~= rest + seq!['\r', '\n'] + b);
        assert(s[0] == a[0]);
        assert(unix_endings(s) =~= a + seq!['\n'] + unix_endings(b));
        let t = a + seq!['\r'] + b;
        assert(t.skip(1) =~= rest + seq!['\r'] + b);
        assert(t[0] == a[0]);
        if b.len() == 0 || b[0] != '\n' {
            assert(unix_endings(t) =~= a + seq!['\r'] + unix_endings(b));
        }
        assert(unix_endings(a) =~= a);
    }
}

/// Each line break gets a carriage return before it; nothing else changes.
pub proof fn dos_endings_put_returns_before_breaks(a: Seq<char>, b: Seq<char>)
    requires
        lacks(a, '\n'),
    ensures
        dos_endings(a + seq!['\n'] + b) == a + seq!['\r', '\n'] + dos_endings(b),
        dos_endings(a) == a,
    decreases a.len(),
{
    if a.len() == 0 {
        let s = a + seq!['\n'] + b;
        assert(s.skip(1) =~= b);
        assert(dos_endings(s) =~= a + seq!['\r', '\n'] + dos_endings(b));
        assert(dos_endings(a) =~= a);
    } else {
        let rest = a.skip(1);
        assert(a[0] != '\n');
        assert forall|i: int| 0 <= i < rest.len() implies #[trigger] rest[i] != '\n' by {
            assert(rest[i] == a[i + 1]);
        }
        dos_endings_put_returns_before_breaks(rest, b);
        let s = a + seq!['\n'] + b;
        assert(s.skip(1) =~= rest + seq!['\n'] + b);
        assert(s[0] == a[0]);
        assert(dos_endings(s) =~= a + seq!['\r', '\n'] + dos_endings(b));
        assert(dos_endings(a) =~= a);
    }
}

} // verus!
