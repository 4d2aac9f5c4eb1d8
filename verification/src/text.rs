//! Characters, whitespace and the splitting of text into lines and tokens.

use vstd::prelude::*;

verus! {

/// Whether `c` has the Unicode property `White_Space`.
pub open spec fn is_space(c: char) -> bool {
    let u = c as u32;
    ||| 0x09 <= u <= 0x0d
    ||| u == 0x20
    ||| u == 0x85
    ||| u == 0xa0
    ||| u == 0x1680
    ||| 0x2000 <= u <= 0x200a
    ||| u == 0x2028
    ||| u == 0x2029
    ||| u == 0x202f
    ||| u == 0x205f
    ||| u == 0x3000
}

/// Tells whether `c` is whitespace.
pub fn is_whitespace(c: char) -> (b: bool)
    ensures
        b == is_space(c),
{
    let u: u32 = c as u32;
    (0x09 <= u && u <= 0x0d) || u == 0x20 || u == 0x85 || u == 0xa0 || u == 0x1680 || (0x2000 <= u
        && u <= 0x200a) || u == 0x2028 || u == 0x2029 || u == 0x202f || u == 0x205f || u == 0x3000
}

/// A class of characters at which text is cut.
#[derive(Clone, Copy, Debug)]
pub enum Delimiter {
    /// Any whitespace character.
    Whitespace,
    /// The line feed.
    LineFeed,
    /// The full stop.
    Dot,
}

impl Delimiter {
    /// Whether `c` belongs to the class.
    pub open spec fn matches(self, c: char) -> bool {
        match self {
            Delimiter::Whitespace => is_space(c),
            Delimiter::LineFeed => c == '\n',
            Delimiter::Dot => c == '.',
        }
    }

    /// Tells whether `c` belongs to the class.
    pub fn test(&self, c: char) -> (b: bool)
        ensures
            b == self.matches(c),
    {
        match self {
            Delimiter::Whitespace => is_whitespace(c),
            Delimiter::LineFeed => c == '\n',
            Delimiter::Dot => c == '.',
        }
    }
}

/// Whether no character of `s` is a delimiter.
pub open spec fn free_of(s: Seq<char>, d: Delimiter) -> bool {
    forall|i: int| 0 <= i < s.len() ==> !d.matches(#[trigger] s[i])
}

/// The number of characters of `s` that stand before its first delimiter: all of them
/// where it has none.
pub open spec fn span(s: Seq<char>, d: Delimiter) -> nat
    decreases s.len(),
{
    if s.len() == 0 || d.matches(s[0]) {
        0
    } else {
        1 + span(s.skip(1), d)
    }
}

/// The pieces into which the delimiters cut `s`. Every delimiter ends one piece, so
/// there is one piece more than there are delimiters, and a piece may be empty.
pub open spec fn split(s: Seq<char>, d: Delimiter) -> Seq<Seq<char>>
    decreases s.len(),
{
    let k = span(s, d) as int;
    if k >= s.len() {
        seq![s]
    } else {
        seq![s.take(k)] + split(s.skip(k + 1), d)
    }
}

/// The maximal runs of characters of `s` that hold no whitespace, in order.
pub open spec fn tokens_of(s: Seq<char>) -> Seq<Seq<char>>
    decreases s.len(),
{
    let k = span(s, Delimiter::Whitespace) as int;
    let head = if k > 0 {
        seq![s.take(k)]
    } else {
        Seq::empty()
    };
    if k >= s.len() {
        head
    } else {
        head + tokens_of(s.skip(k + 1))
    }
}

/// `l` without one carriage return at its end.
pub open spec fn strip_cr(l: Seq<char>) -> Seq<char> {
    if l.len() > 0 && l.last() == '\r' {
        l.drop_last()
    } else {
        l
    }
}

/// The lines of `s`. A line ends at a line feed, and a carriage return before that line
/// feed does not belong to it. What follows the last line feed is a line too, unless it
/// is empty.
pub open spec fn lines_of(s: Seq<char>) -> Seq<Seq<char>> {
    let pieces = split(s, Delimiter::LineFeed);
    let ended = pieces.drop_last().map_values(|l: Seq<char>| strip_cr(l));
    if pieces.last().len() == 0 {
        ended
    } else {
        ended.push(pieces.last())
    }
}

/// `s` without the whitespace at its start.
pub open spec fn trimmed_start(s: Seq<char>) -> Seq<char>
    decreases s.len(),
{
    if s.len() > 0 && is_space(s[0]) {
        trimmed_start(s.skip(1))
    } else {
        s
    }
}

/// `s` without the whitespace at its end.
pub open spec fn trimmed_end(s: Seq<char>) -> Seq<char>
    decreases s.len(),
{
    if s.len() > 0 && is_space(s.last()) {
        trimmed_end(s.drop_last())
    } else {
        s
    }
}

/// `s` without the whitespace at its start and at its end.
pub open spec fn trimmed(s: Seq<char>) -> Seq<char> {
    trimmed_end(trimmed_start(s))
}

/// Whether `s` can stand as one token: it is not empty and holds no whitespace.
pub open spec fn is_word(s: Seq<char>) -> bool {
    s.len() > 0 && free_of(s, Delimiter::Whitespace)
}

/// The text that holds each of `ls` as a line, ended by a line feed.
pub open spec fn unlines(ls: Seq<Seq<char>>) -> Seq<char>
    decreases ls.len(),
{
    if ls.len() == 0 {
        Seq::empty()
    } else {
        ls[0] + seq!['\n'] + unlines(ls.skip(1))
    }
}

/// Whether `l` comes back unchanged as a line: it holds no line feed and does not end
/// with a carriage return.
pub open spec fn is_line(l: Seq<char>) -> bool {
    free_of(l, Delimiter::LineFeed) && strip_cr(l) == l
}

/// Whether `s` starts with `p`.
pub open spec fn begins_with(s: Seq<char>, p: Seq<char>) -> bool {
    p.len() <= s.len() && s.take(p.len() as int) == p
}

/// `to`, and then each character of `s` with `to` after it.
pub open spec fn interleaved(s: Seq<char>, to: Seq<char>) -> Seq<char>
    decreases s.len(),
{
    if s.len() == 0 {
        to
    } else {
        to + seq![s[0]] + interleaved(s.skip(1), to)
    }
}

/// `s` with `to` in the place of every `from`. The places are found from the start of
/// `s`, and none of them overlaps the one before it. An empty `from` is found before
/// every character and at the end.
pub open spec fn replaced(s: Seq<char>, from: Seq<char>, to: Seq<char>) -> Seq<char>
    decreases s.len(),
{
    if from.len() == 0 {
        interleaved(s, to)
    } else if s.len() == 0 {
        s
    } else if begins_with(s, from) {
        to + replaced(s.skip(from.len() as int), from, to)
    } else {
        seq![s[0]] + replaced(s.skip(1), from, to)
    }
}

/// The parts of `s` that the index pairs of `ranges` mark, in order.
pub open spec fn pieces(s: Seq<char>, ranges: Seq<(usize, usize)>) -> Seq<Seq<char>> {
    Seq::new(ranges.len(), |i: int| s.subrange(ranges[i].0 as int, ranges[i].1 as int))
}

/// Whether each pair of `ranges` marks a part of a text of `len` characters.
pub open spec fn within(ranges: Seq<(usize, usize)>, len: nat) -> bool {
    forall|i: int| 0 <= i < ranges.len() ==> (#[trigger] ranges[i]).0 <= ranges[i].1 <= len
}

/// The characters that `span` counts hold no delimiter, and the next one, if there is
/// one, is a delimiter.
pub proof fn lemma_span_stops(s: Seq<char>, d: Delimiter)
    ensures
        span(s, d) <= s.len(),
        free_of(s.take(span(s, d) as int), d),
        span(s, d) < s.len() ==> d.matches(s[span(s, d) as int]),
    decreases s.len(),
{
    if s.len() > 0 && !d.matches(s[0]) {
        let t = s.skip(1);
        lemma_span_stops(t, d);
        let k = span(s, d) as int;
        assert forall|i: int| 0 <= i < k implies !d.matches(#[trigger] s.take(k)[i]) by {
            if i > 0 {
                assert(s.take(k)[i] == t.take(k - 1)[i - 1]);
            }
        }
    }
}

/// A count is the span where the characters before it hold no delimiter and the
/// character at it, if there is one, is a delimiter.
pub proof fn lemma_span_is(s: Seq<char>, d: Delimiter, k: int)
    requires
        0 <= k <= s.len(),
        forall|i: int| 0 <= i < k ==> !d.matches(#[trigger] s[i]),
        k < s.len() ==> d.matches(s[k]),
    ensures
        span(s, d) == k,
    decreases k,
{
    if k > 0 {
        let t = s.skip(1);
        assert forall|i: int| 0 <= i < k - 1 implies !d.matches(#[trigger] t[i]) by {
            assert(t[i] == s[i + 1]);
        }
        lemma_span_is(t, d, k - 1);
    }
}

/// A text that starts with a piece free of delimiters and then a delimiter is cut there.
pub proof fn lemma_split_first(w: Seq<char>, c: char, rest: Seq<char>, d: Delimiter)
    requires
        free_of(w, d),
        d.matches(c),
    ensures
        split(w + seq![c] + rest, d) == seq![w] + split(rest, d),
{
    let s = w + seq![c] + rest;
    let k = w.len() as int;
    assert forall|i: int| 0 <= i < k implies !d.matches(#[trigger] s[i]) by {
        assert(s[i] == w[i]);
    }
    assert(s[k] == c);
    lemma_span_is(s, d, k);
    assert(s.take(k) =~= w);
    assert(s.skip(k + 1) =~= rest);
}

/// A text free of delimiters is one piece.
pub proof fn lemma_split_whole(w: Seq<char>, d: Delimiter)
    requires
        free_of(w, d),
    ensures
        split(w, d) == seq![w],
{
    lemma_span_is(w, d, w.len() as int);
}

/// There is always at least one piece, and no piece holds a delimiter.
pub proof fn lemma_split_len(s: Seq<char>, d: Delimiter)
    ensures
        split(s, d).len() >= 1,
        forall|i: int| 0 <= i < split(s, d).len() ==> free_of(#[trigger] split(s, d)[i], d),
    decreases s.len(),
{
    lemma_span_stops(s, d);
    let k = span(s, d) as int;
    if k < s.len() {
        let rest = s.skip(k + 1);
        lemma_split_len(rest, d);
        assert forall|i: int| 0 <= i < split(s, d).len() implies free_of(
            #[trigger] split(s, d)[i],
            d,
        ) by {
            if i > 0 {
                assert(split(s, d)[i] == split(rest, d)[i - 1]);
            }
        }
    } else {
        assert(s.take(k) =~= s);
    }
}

/// A word, a whitespace character and more text: the first token is the word.
pub proof fn lemma_tokens_first(w: Seq<char>, c: char, rest: Seq<char>)
    requires
        w.len() > 0,
        free_of(w, Delimiter::Whitespace),
        is_space(c),
    ensures
        tokens_of(w + seq![c] + rest) == seq![w] + tokens_of(rest),
{
    let s = w + seq![c] + rest;
    let k = w.len() as int;
    assert forall|i: int| 0 <= i < k implies !Delimiter::Whitespace.matches(#[trigger] s[i]) by {
        assert(s[i] == w[i]);
    }
    assert(s[k] == c);
    lemma_span_is(s, Delimiter::Whitespace, k);
    assert(s.take(k) =~= w);
    assert(s.skip(k + 1) =~= rest);
}

/// A word alone is its only token.
pub proof fn lemma_tokens_word(w: Seq<char>)
    requires
        w.len() > 0,
        free_of(w, Delimiter::Whitespace),
    ensures
        tokens_of(w) == seq![w],
{
    lemma_span_is(w, Delimiter::Whitespace, w.len() as int);
    assert(w.take(w.len() as int) =~= w);
}

/// Every token is not empty and holds no whitespace.
pub proof fn lemma_tokens_are_words(s: Seq<char>)
    ensures
        forall|i: int|
            0 <= i < tokens_of(s).len() ==> (#[trigger] tokens_of(s)[i]).len() > 0 && free_of(
                tokens_of(s)[i],
                Delimiter::Whitespace,
            ),
    decreases s.len(),
{
    let d = Delimiter::Whitespace;
    lemma_span_stops(s, d);
    let k = span(s, d) as int;
    let head = if k > 0 {
        seq![s.take(k)]
    } else {
        Seq::empty()
    };
    if k < s.len() {
        let rest = s.skip(k + 1);
        lemma_tokens_are_words(rest);
        assert forall|i: int| 0 <= i < tokens_of(s).len() implies (#[trigger] tokens_of(s)[i]).len()
            > 0 && free_of(tokens_of(s)[i], d) by {
            if i >= head.len() {
                assert(tokens_of(s)[i] == tokens_of(rest)[i - head.len()]);
            }
        }
    }
}

/// One more line at the end of a text of lines.
pub proof fn lemma_unlines_push(ls: Seq<Seq<char>>, l: Seq<char>)
    ensures
        unlines(ls.push(l)) == unlines(ls) + l + seq!['\n'],
    decreases ls.len(),
{
    if ls.len() == 0 {
        let none = Seq::<Seq<char>>::empty();
        assert(ls.push(l).skip(1) =~= none);
        assert(unlines(none) =~= Seq::<char>::empty());
        assert(unlines(ls.push(l)) =~= unlines(ls) + l + seq!['\n']);
    } else {
        lemma_unlines_push(ls.skip(1), l);
        assert(ls.push(l).skip(1) =~= ls.skip(1).push(l));
        assert(unlines(ls.push(l)) =~= unlines(ls) + l + seq!['\n']);
    }
}

/// The line feeds cut a text of lines into those lines and one empty piece after them.
pub proof fn lemma_split_unlines(ls: Seq<Seq<char>>)
    requires
        forall|i: int| 0 <= i < ls.len() ==> free_of(#[trigger] ls[i], Delimiter::LineFeed),
    ensures
        split(unlines(ls), Delimiter::LineFeed) == ls.push(Seq::empty()),
    decreases ls.len(),
{
    let d = Delimiter::LineFeed;
    if ls.len() == 0 {
        assert(split(unlines(ls), d) =~= ls.push(Seq::empty()));
    } else {
        let rest = ls.skip(1);
        assert forall|i: int| 0 <= i < rest.len() implies free_of(#[trigger] rest[i], d) by {
            assert(rest[i] == ls[i + 1]);
        }
        lemma_split_unlines(rest);
        lemma_split_first(ls[0], '\n', unlines(rest), d);
        assert(seq![ls[0]] + rest.push(Seq::empty()) =~= ls.push(Seq::empty()));
    }
}

/// A text of lines is read back as those lines.
pub proof fn lemma_lines_unlines(ls: Seq<Seq<char>>)
    requires
        forall|i: int| 0 <= i < ls.len() ==> is_line(#[trigger] ls[i]),
    ensures
        lines_of(unlines(ls)) == ls,
{
    lemma_split_unlines(ls);
    let p = split(unlines(ls), Delimiter::LineFeed);
    assert(p.drop_last() =~= ls);
    assert(p.drop_last().map_values(|l: Seq<char>| strip_cr(l)) =~= ls);
}

/// The characters of `text`, in order.
pub fn chars_of(text: &str) -> (v: Vec<char>)
    ensures
        v@ == text@,
{
    let mut v: Vec<char> = Vec::new();
    for c in it: text.chars()
        invariant
            v@ == it.seq().take(it.index() as int),
            it.seq() == text@,
    {
        v.push(c);
    }
    v
}

/// Finds where the run of characters free of delimiters that starts at `from` ends.
pub fn span_end(chars: &[char], from: usize, to: usize, d: Delimiter) -> (k: usize)
    requires
        from <= to <= chars.len(),
    ensures
        from <= k <= to,
        k - from == span(chars@.subrange(from as int, to as int), d),
{
    let ghost s = chars@.subrange(from as int, to as int);
    let mut k: usize = from;
    while k < to && !d.test(chars[k])
        invariant
            from <= k <= to <= chars.len(),
            s == chars@.subrange(from as int, to as int),
            forall|i: int| 0 <= i < k - from ==> !d.matches(#[trigger] s[i]),
        decreases to - k,
    {
        k += 1;
    }
    proof {
        lemma_span_is(s, d, k - from);
    }
    k
}

/// Cuts the characters from `from` to `to` at every delimiter.
pub fn split_ranges(chars: &[char], from: usize, to: usize, d: Delimiter) -> (out: Vec<
    (usize, usize),
>)
    requires
        from <= to <= chars.len(),
    ensures
        pieces(chars@, out@) == split(chars@.subrange(from as int, to as int), d),
        out@.len() >= 1,
        forall|i: int| 0 <= i < out@.len() ==> from <= (#[trigger] out@[i]).0 <= out@[i].1 <= to,
{
    let mut out: Vec<(usize, usize)> = Vec::new();
    let mut start: usize = from;
    loop
        invariant_except_break
            from <= start <= to <= chars.len(),
            split(chars@.subrange(from as int, to as int), d) == pieces(chars@, out@) + split(
                chars@.subrange(start as int, to as int),
                d,
            ),
            forall|i: int|
                0 <= i < out@.len() ==> from <= (#[trigger] out@[i]).0 <= out@[i].1 <= to,
        ensures
            pieces(chars@, out@) == split(chars@.subrange(from as int, to as int), d),
            out@.len() >= 1,
            forall|i: int|
                0 <= i < out@.len() ==> from <= (#[trigger] out@[i]).0 <= out@[i].1 <= to,
        decreases to - start,
    {
        let ghost before = out@;
        let ghost s = chars@.subrange(start as int, to as int);
        let k = span_end(chars, start, to, d);
        out.push((start, k));
        proof {
            assert(s.take(k - start) =~= chars@.subrange(start as int, k as int));
            assert(pieces(chars@, out@) =~= pieces(chars@, before) + seq![
                chars@.subrange(start as int, k as int),
            ]);
        }
        if k >= to {
            proof {
                assert(s.take(k - start) =~= s);
            }
            break;
        }
        proof {
            assert(s.skip(k - start + 1) =~= chars@.subrange(k + 1, to as int));
        }
        start = k + 1;
    }
    out
}

/// Finds the tokens among the characters from `from` to `to`.
pub fn token_ranges(chars: &[char], from: usize, to: usize) -> (out: Vec<(usize, usize)>)
    requires
        from <= to <= chars.len(),
    ensures
        pieces(chars@, out@) == tokens_of(chars@.subrange(from as int, to as int)),
        forall|i: int| 0 <= i < out@.len() ==> from <= (#[trigger] out@[i]).0 < out@[i].1 <= to,
{
    let mut out: Vec<(usize, usize)> = Vec::new();
    let mut start: usize = from;
    loop
        invariant_except_break
            from <= start <= to <= chars.len(),
            tokens_of(chars@.subrange(from as int, to as int)) == pieces(chars@, out@) + tokens_of(
                chars@.subrange(start as int, to as int),
            ),
            forall|i: int|
                0 <= i < out@.len() ==> from <= (#[trigger] out@[i]).0 < out@[i].1 <= to,
        ensures
            pieces(chars@, out@) == tokens_of(chars@.subrange(from as int, to as int)),
            forall|i: int|
                0 <= i < out@.len() ==> from <= (#[trigger] out@[i]).0 < out@[i].1 <= to,
        decreases to - start,
    {
        let ghost before = out@;
        let ghost s = chars@.subrange(start as int, to as int);
        let k = span_end(chars, start, to, Delimiter::Whitespace);
        if k > start {
            out.push((start, k));
            proof {
                assert(s.take(k - start) =~= chars@.subrange(start as int, k as int));
                assert(pieces(chars@, out@) =~= pieces(chars@, before) + seq![
                    chars@.subrange(start as int, k as int),
                ]);
            }
        }
        if k >= to {
            proof {
                assert(pieces(chars@, out@) =~= tokens_of(
                    chars@.subrange(from as int, to as int),
                ));
            }
            break;
        }
        proof {
            assert(s.skip(k - start + 1) =~= chars@.subrange(k + 1, to as int));
        }
        start = k + 1;
    }
    out
}

/// Finds the lines of `chars`.
pub fn line_ranges(chars: &[char]) -> (out: Vec<(usize, usize)>)
    ensures
        pieces(chars@, out@) == lines_of(chars@),
        within(out@, chars@.len()),
{
    let cut = split_ranges(chars, 0, chars.len(), Delimiter::LineFeed);
    let ghost all = split(chars@, Delimiter::LineFeed);
    assert(chars@.subrange(0, chars@.len() as int) =~= chars@);
    let mut out: Vec<(usize, usize)> = Vec::new();
    let last: usize = cut.len() - 1;
    let mut i: usize = 0;
    while i < last
        invariant
            i <= last == cut@.len() - 1,
            pieces(chars@, cut@) == all,
            forall|j: int|
                0 <= j < cut@.len() ==> (#[trigger] cut@[j]).0 <= cut@[j].1 <= chars@.len(),
            pieces(chars@, out@) == all.take(i as int).map_values(|l: Seq<char>| strip_cr(l)),
            within(out@, chars@.len()),
        decreases last - i,
    {
        let ghost before = out@;
        let (a, b) = cut[i];
        assert(pieces(chars@, cut@)[i as int] == chars@.subrange(a as int, b as int));
        let stripped: (usize, usize) = if b > a && chars[b - 1] == '\r' {
            (a, (b - 1) as usize)
        } else {
            (a, b)
        };
        out.push(stripped);
        proof {
            let l = chars@.subrange(a as int, b as int);
            assert(chars@.subrange(stripped.0 as int, stripped.1 as int) =~= strip_cr(l));
            assert(pieces(chars@, out@) =~= pieces(chars@, before).push(strip_cr(l)));
            assert(all.take(i + 1).map_values(|l: Seq<char>| strip_cr(l)) =~= all.take(
                i as int,
            ).map_values(|l: Seq<char>| strip_cr(l)).push(strip_cr(all[i as int])));
        }
        i += 1;
    }
    let (a, b) = cut[last];
    proof {
        assert(all.take(last as int) =~= all.drop_last());
        assert(pieces(chars@, cut@)[last as int] == chars@.subrange(a as int, b as int));
    }
    if b > a {
        let ghost before = out@;
        out.push((a, b));
        proof {
            assert(pieces(chars@, out@) =~= pieces(chars@, before).push(all.last()));
        }
    }
    out
}

/// Finds the part of the characters from `from` to `to` that is left when the whitespace
/// at both ends is taken away.
pub fn trim_range(chars: &[char], from: usize, to: usize) -> (r: (usize, usize))
    requires
        from <= to <= chars.len(),
    ensures
        from <= r.0 <= r.1 <= to,
        chars@.subrange(r.0 as int, r.1 as int) == trimmed(chars@.subrange(from as int, to as int)),
{
    let mut a: usize = from;
    while a < to && is_whitespace(chars[a])
        invariant
            from <= a <= to <= chars.len(),
            trimmed_start(chars@.subrange(from as int, to as int)) == trimmed_start(
                chars@.subrange(a as int, to as int),
            ),
        decreases to - a,
    {
        proof {
            assert(chars@.subrange(a as int, to as int).skip(1) =~= chars@.subrange(
                a + 1,
                to as int,
            ));
        }
        a += 1;
    }
    let mut b: usize = to;
    while b > a && is_whitespace(chars[b - 1])
        invariant
            a <= b <= to <= chars.len(),
            trimmed_end(chars@.subrange(a as int, to as int)) == trimmed_end(
                chars@.subrange(a as int, b as int),
            ),
        decreases b - a,
    {
        proof {
            assert(chars@.subrange(a as int, b as int).drop_last() =~= chars@.subrange(
                a as int,
                b - 1,
            ));
        }
        b -= 1;
    }
    (a, b)
}

/// Tells whether the characters of `a` from `from` to `to` are the characters of `b`.
pub fn same_chars(a: &[char], from: usize, to: usize, b: &[char]) -> (same: bool)
    requires
        from <= to <= a.len(),
    ensures
        same == (a@.subrange(from as int, to as int) == b@),
{
    if to - from != b.len() {
        return false;
    }
    let n: usize = b.len();
    let mut i: usize = 0;
    while i < n
        invariant
            from + n == to <= a.len(),
            n == b.len(),
            i <= n,
            forall|j: int| 0 <= j < i ==> a@[from + j] == b@[j],
        decreases n - i,
    {
        if a[from + i] != b[i] {
            assert(a@.subrange(from as int, to as int)[i as int] != b@[i as int]);
            return false;
        }
        i += 1;
    }
    assert(a@.subrange(from as int, to as int) =~= b@);
    true
}

/// Tells whether `p` stands in `chars` at the place `at`.
pub fn begins_at(chars: &[char], at: usize, p: &[char]) -> (b: bool)
    requires
        at <= chars.len(),
    ensures
        b == begins_with(chars@.skip(at as int), p@),
{
    if chars.len() - at < p.len() {
        return false;
    }
    let b = same_chars(chars, at, at + p.len(), p);
    assert(chars@.skip(at as int).take(p@.len() as int) =~= chars@.subrange(
        at as int,
        at + p@.len(),
    ));
    b
}

/// Writes `text` with `to` in the place of every `from`.
pub fn replace(text: &str, from: &str, to: &str) -> (out: String)
    ensures
        out@ == replaced(text@, from@, to@),
{
    let chars = chars_of(text);
    let pattern = chars_of(from);
    let n: usize = chars.len();
    let m: usize = pattern.len();
    let mut out = String::new();
    let mut i: usize = 0;
    if m == 0 {
        return interleave_from(text, to);
    }
    let mut kept: usize = 0;
    assert(chars@.skip(0) =~= chars@);
    assert(out@ + chars@.subrange(0, 0) + replaced(chars@, from@, to@) =~= replaced(
        chars@,
        from@,
        to@,
    ));
    while i < n
        invariant
            kept <= i <= n,
            n == chars@.len(),
            m == pattern@.len(),
            m > 0,
            chars@ == text@,
            pattern@ == from@,
            replaced(text@, from@, to@) == out@ + chars@.subrange(kept as int, i as int)
                + replaced(chars@.skip(i as int), from@, to@),
        decreases n - i,
    {
        let ghost before = out@;
        let ghost rest = chars@.skip(i as int);
        if begins_at(chars.as_slice(), i, pattern.as_slice()) {
            out.append(text.substring_char(kept, i));
            out.append(to);
            proof {
                assert(rest.skip(m as int) =~= chars@.skip(i + m));
                assert(out@ + chars@.subrange(i + m, i + m) + replaced(
                    chars@.skip(i + m),
                    from@,
                    to@,
                ) =~= before + chars@.subrange(kept as int, i as int) + replaced(rest, from@, to@));
            }
            i += m;
            kept = i;
        } else {
            proof {
                assert(rest.skip(1) =~= chars@.skip(i + 1));
                assert(chars@.subrange(kept as int, i + 1) =~= chars@.subrange(
                    kept as int,
                    i as int,
                ) + seq![rest[0]]);
                assert(out@ + chars@.subrange(kept as int, i + 1) + replaced(
                    chars@.skip(i + 1),
                    from@,
                    to@,
                ) =~= before + chars@.subrange(kept as int, i as int) + replaced(rest, from@, to@));
            }
            i += 1;
        }
    }
    out.append(text.substring_char(kept, n));
    proof {
        assert(chars@.skip(n as int) =~= Seq::<char>::empty());
        assert(out@ =~= replaced(text@, from@, to@));
    }
    out
}

/// Writes `to`, and then each character of `text` with `to` after it.
fn interleave_from(text: &str, to: &str) -> (out: String)
    ensures
        out@ == interleaved(text@, to@),
{
    let n: usize = text.unicode_len();
    let mut out = String::new();
    let mut i: usize = n;
    assert(text@.skip(n as int) =~= Seq::<char>::empty());
    out.append(to);
    while i > 0
        invariant
            i <= n,
            n == text@.len(),
            out@ == interleaved(text@.skip(i as int), to@),
        decreases i,
    {
        let ghost before = out@;
        let mut next = to.to_owned();
        next.append(text.substring_char(i - 1, i));
        next.append(out.as_str());
        proof {
            let rest = text@.skip(i - 1);
            assert(rest.skip(1) =~= text@.skip(i as int));
            assert(text@.subrange(i - 1, i as int) =~= seq![rest[0]]);
            assert(next@ =~= interleaved(rest, to@));
        }
        out = next;
        i -= 1;
    }
    assert(text@.skip(0) =~= text@);
    out
}

} // verus!
