use vstd::prelude::*;

verus! {

/// Whether `c` carries the Unicode property `White_Space`.
pub open spec fn is_space(c: char) -> bool {
    let n = c as u32;
    ||| 0x09 <= n <= 0x0D
    ||| n == 0x20
    ||| n == 0x85
    ||| n == 0xA0
    ||| n == 0x1680
    ||| 0x2000 <= n <= 0x200A
    ||| n == 0x2028
    ||| n == 0x2029
    ||| n == 0x202F
    ||| n == 0x205F
    ||| n == 0x3000
}

/// Tests a character for the Unicode property `White_Space`.
pub fn is_whitespace(c: char) -> (b: bool)
    ensures
        b == is_space(c),
{
    let n: u32 = c as u32;
    (0x09 <= n && n <= 0x0D) || n == 0x20 || n == 0x85 || n == 0xA0 || n == 0x1680 || (0x2000 <= n
        && n <= 0x200A) || n == 0x2028 || n == 0x2029 || n == 0x202F || n == 0x205F || n == 0x3000
}

/// The characters of a string slice, in order.
pub fn chars_of(s: &str) -> (v: Vec<char>)
    ensures
        v@ == s@,
{
    let mut v: Vec<char> = Vec::new();
    for c in it: s.chars()
        invariant
            it.seq() == s@,
            v@ == it.seq().take(it.index() as int),
    {
        v.push(c);
    }
    v
}

/// Where a scan over characters comes to a halt.
#[derive(Debug, Clone, Copy, PartialEq, Eq, Structural)]
pub enum Stop {
    /// At the first whitespace character.
    Space,
    /// At the first character that is not whitespace.
    NonSpace,
    /// At the first occurrence of the given character.
    Char(char),
}

impl Stop {
    /// Whether a scan of this kind halts in front of `c`.
    pub open spec fn halts_at(self, c: char) -> bool {
        match self {
            Stop::Space => is_space(c),
            Stop::NonSpace => !is_space(c),
            Stop::Char(d) => c == d,
        }
    }

    /// Decides whether a scan of this kind halts in front of `c`.
    pub fn halts(self, c: char) -> (b: bool)
        ensures
            b == self.halts_at(c),
    {
        match self {
            Stop::Space => is_whitespace(c),
            Stop::NonSpace => !is_whitespace(c),
            Stop::Char(d) => c == d,
        }
    }
}

/// The number of characters at the front of `s` before the scan halts:
/// the index of the first character that `stop` halts at, or the length of
/// `s` if there is none.
pub open spec fn run_len(s: Seq<char>, stop: Stop) -> nat
    decreases s.len(),
{
    if s.len() > 0 && !stop.halts_at(s[0]) {
        1 + run_len(s.skip(1), stop)
    } else {
        0
    }
}

/// The number of whitespace characters at the back of `s`.
pub open spec fn trailing_space_len(s: Seq<char>) -> nat
    decreases s.len(),
{
    if s.len() > 0 && is_space(s.last()) {
        1 + trailing_space_len(s.drop_last())
    } else {
        0
    }
}

/// `s` without the whitespace at its front.
pub open spec fn trim_start(s: Seq<char>) -> Seq<char> {
    s.skip(run_len(s, Stop::NonSpace) as int)
}

/// `s` without the whitespace at its back.
pub open spec fn trim_end(s: Seq<char>) -> Seq<char> {
    s.take(s.len() - trailing_space_len(s))
}

/// `s` without the whitespace at its front and at its back.
pub open spec fn trim(s: Seq<char>) -> Seq<char> {
    trim_end(trim_start(s))
}

/// `s` without one quote character at its front and one at its back, as far
/// as it has them.
pub open spec fn unquote(s: Seq<char>) -> Seq<char> {
    let rest = if s.len() > 0 && s[0] == '\'' {
        s.skip(1)
    } else {
        s
    };
    if rest.len() > 0 && rest.last() == '\'' {
        rest.drop_last()
    } else {
        rest
    }
}

/// The maximal runs of characters of `s` that hold no whitespace, in order.
pub open spec fn words(s: Seq<char>) -> Seq<Seq<char>>
    decreases s.len(),
{
    if s.len() == 0 {
        Seq::empty()
    } else if is_space(s[0]) {
        words(s.skip(1))
    } else {
        let n = run_len(s, Stop::Space) as int;
        proof {
            lemma_run_len(s, Stop::Space);
        }
        seq![s.take(n)] + words(s.skip(n))
    }
}

/// The pieces that the occurrences of `sep` cut `s` into, in order. There is
/// always at least one piece; pieces may be empty.
pub open spec fn split(s: Seq<char>, sep: char) -> Seq<Seq<char>>
    decreases s.len(),
{
    let n = run_len(s, Stop::Char(sep)) as int;
    if 0 <= n < s.len() {
        seq![s.take(n)] + split(s.skip(n + 1), sep)
    } else {
        seq![s]
    }
}

/// A run never reaches past the end, every character in it is passed over,
/// and the scan halts at the character that follows it.
pub proof fn lemma_run_len(s: Seq<char>, stop: Stop)
    ensures
        run_len(s, stop) <= s.len(),
        forall|i: int| 0 <= i < run_len(s, stop) ==> !stop.halts_at(#[trigger] s[i]),
        run_len(s, stop) < s.len() ==> stop.halts_at(s[run_len(s, stop) as int]),
    decreases s.len(),
{
    if s.len() > 0 && !stop.halts_at(s[0]) {
        let rest = s.skip(1);
        lemma_run_len(rest, stop);
        assert forall|i: int| 0 <= i < run_len(s, stop) implies !stop.halts_at(#[trigger] s[i]) by {
            if i > 0 {
                assert(s[i] == rest[i - 1]);
            }
        }
        if run_len(s, stop) < s.len() {
            assert(s[run_len(s, stop) as int] == rest[run_len(rest, stop) as int]);
        }
    }
}

/// The run at the front of `s` is the only prefix that is passed over whole
/// and ends where the scan halts.
pub proof fn lemma_run_len_unique(s: Seq<char>, stop: Stop, n: int)
    requires
        0 <= n <= s.len(),
        forall|i: int| 0 <= i < n ==> !stop.halts_at(#[trigger] s[i]),
        n < s.len() ==> stop.halts_at(s[n]),
    ensures
        run_len(s, stop) == n,
{
    lemma_run_len(s, stop);
    let m = run_len(s, stop) as int;
    if m < n {
        assert(!stop.halts_at(s[m]));
    } else if n < m {
        assert(stop.halts_at(s[n]));
    }
}

/// The trailing whitespace never reaches past the front, every character in
/// it is whitespace, and the character in front of it is not.
pub proof fn lemma_trailing_space_len(s: Seq<char>)
    ensures
        trailing_space_len(s) <= s.len(),
        forall|i: int| s.len() - trailing_space_len(s) <= i < s.len() ==> is_space(#[trigger] s[i]),
        trailing_space_len(s) < s.len() ==> !is_space(s[s.len() - trailing_space_len(s) - 1]),
    decreases s.len(),
{
    if s.len() > 0 && is_space(s.last()) {
        let rest = s.drop_last();
        lemma_trailing_space_len(rest);
        assert forall|i: int| s.len() - trailing_space_len(s) <= i < s.len() implies is_space(
            #[trigger] s[i],
        ) by {
            if i < s.len() - 1 {
                assert(s[i] == rest[i]);
            }
        }
        if trailing_space_len(s) < s.len() {
            assert(s[s.len() - trailing_space_len(s) - 1] == rest[rest.len() - trailing_space_len(
                rest,
            ) - 1]);
        }
    }
}

/// The trailing whitespace of `s` is the only suffix of whitespace with no
/// whitespace in front of it.
pub proof fn lemma_trailing_space_len_unique(s: Seq<char>, n: int)
    requires
        0 <= n <= s.len(),
        forall|i: int| s.len() - n <= i < s.len() ==> is_space(#[trigger] s[i]),
        n < s.len() ==> !is_space(s[s.len() - n - 1]),
    ensures
        trailing_space_len(s) == n,
{
    lemma_trailing_space_len(s);
    let m = trailing_space_len(s) as int;
    if m < n {
        assert(is_space(s[s.len() - m - 1]));
    } else if n < m {
        assert(is_space(s[s.len() - n - 1]));
    }
}

/// Whitespace at the front of a text adds no word to it.
pub proof fn lemma_words_skip_spaces(s: Seq<char>)
    ensures
        words(s) == words(trim_start(s)),
    decreases s.len(),
{
    if s.len() > 0 && is_space(s[0]) {
        let rest = s.skip(1);
        lemma_words_skip_spaces(rest);
        lemma_run_len(rest, Stop::NonSpace);
        assert(trim_start(s) =~= trim_start(rest));
    } else {
        assert(trim_start(s) =~= s);
    }
}

/// The parts in a row, with `sep` between each two.
pub open spec fn join(parts: Seq<Seq<char>>, sep: Seq<char>) -> Seq<char>
    decreases parts.len(),
{
    if parts.len() == 0 {
        Seq::empty()
    } else if parts.len() == 1 {
        parts[0]
    } else {
        join(parts.drop_last(), sep) + sep + parts.last()
    }
}

/// Whether `w` has a character, and no whitespace among its characters.
pub open spec fn is_word(w: Seq<char>) -> bool {
    w.len() > 0 && forall|i: int| 0 <= i < w.len() ==> !is_space(#[trigger] w[i])
}

/// Whether `piece` is free of the character `sep`.
pub open spec fn free_of(piece: Seq<char>, sep: char) -> bool {
    forall|i: int| 0 <= i < piece.len() ==> #[trigger] piece[i] != sep
}

/// Every word has a character, and none of its characters is whitespace.
pub proof fn lemma_words(s: Seq<char>)
    ensures
        forall|k: int| 0 <= k < words(s).len() ==> is_word(#[trigger] words(s)[k]),
    decreases s.len(),
{
    if s.len() == 0 {
    } else if is_space(s[0]) {
        lemma_words(s.skip(1));
        assert(words(s) == words(s.skip(1)));
    } else {
        let n = run_len(s, Stop::Space) as int;
        lemma_run_len(s, Stop::Space);
        lemma_words(s.skip(n));
        let rest = words(s.skip(n));
        assert(words(s) == seq![s.take(n)] + rest);
        assert(is_word(s.take(n))) by {
            assert forall|i: int| 0 <= i < n implies !is_space(#[trigger] s.take(n)[i]) by {
                assert(!Stop::Space.halts_at(s[i]));
            }
        }
        assert forall|k: int| 0 <= k < words(s).len() implies is_word(#[trigger] words(s)[k]) by {
            if k > 0 {
                assert(words(s)[k] == rest[k - 1]);
            } else {
                assert(words(s)[0] == s.take(n));
            }
        }
    }
}

/// A text is cut into at least one piece, and no piece holds the separator.
pub proof fn lemma_split_pieces(s: Seq<char>, sep: char)
    ensures
        split(s, sep).len() > 0,
        forall|k: int| 0 <= k < split(s, sep).len() ==> free_of(#[trigger] split(s, sep)[k], sep),
    decreases s.len(),
{
    let n = run_len(s, Stop::Char(sep)) as int;
    lemma_run_len(s, Stop::Char(sep));
    if 0 <= n < s.len() {
        lemma_split_pieces(s.skip(n + 1), sep);
        let rest = split(s.skip(n + 1), sep);
        assert forall|k: int| 0 <= k < split(s, sep).len() implies free_of(
            #[trigger] split(s, sep)[k],
            sep,
        ) by {
            if k > 0 {
                assert(split(s, sep)[k] == rest[k - 1]);
            }
        }
    }
}

/// Joining puts a part in front of the others with one separator between.
pub proof fn lemma_join_front(first: Seq<char>, others: Seq<Seq<char>>, sep: Seq<char>)
    requires
        others.len() > 0,
    ensures
        join(seq![first] + others, sep) == first + sep + join(others, sep),
    decreases others.len(),
{
    let all = seq![first] + others;
    if others.len() == 1 {
        assert(all.drop_last() =~= seq![first]);
        assert(join(seq![first], sep) == first);
        assert(join(others, sep) == others[0]);
        assert(all.last() == others[0]);
    } else {
        assert(all.drop_last() =~= seq![first] + others.drop_last());
        lemma_join_front(first, others.drop_last(), sep);
        assert(join(all, sep) =~= first + sep + join(others, sep));
    }
}

/// The pieces of a text, joined by the separator, give the text back.
pub proof fn lemma_split_join(s: Seq<char>, sep: char)
    ensures
        join(split(s, sep), seq![sep]) == s,
    decreases s.len(),
{
    let n = run_len(s, Stop::Char(sep)) as int;
    lemma_run_len(s, Stop::Char(sep));
    if 0 <= n < s.len() {
        let rest = s.skip(n + 1);
        lemma_split_join(rest, sep);
        lemma_split_pieces(rest, sep);
        lemma_join_front(s.take(n), split(rest, sep), seq![sep]);
        assert(s.take(n) + seq![sep] + rest =~= s);
    }
}

/// A trimmed text neither starts nor ends with whitespace, and the text it
/// was trimmed from is that text with whitespace around it.
pub proof fn lemma_trim(s: Seq<char>)
    ensures
        trim(s).len() > 0 ==> !is_space(trim(s).first()) && !is_space(trim(s).last()),
        ({
            let front = run_len(s, Stop::NonSpace) as int;
            let back = trailing_space_len(trim_start(s)) as int;
            &&& 0 <= front <= s.len() - back <= s.len()
            &&& trim(s) == s.subrange(front, s.len() - back)
            &&& forall|i: int| 0 <= i < front ==> is_space(#[trigger] s[i])
            &&& forall|i: int| s.len() - back <= i < s.len() ==> is_space(#[trigger] s[i])
        }),
{
    let front = run_len(s, Stop::NonSpace) as int;
    lemma_run_len(s, Stop::NonSpace);
    let t = trim_start(s);
    let back = trailing_space_len(t) as int;
    lemma_trailing_space_len(t);
    assert(trim(s) =~= s.subrange(front, s.len() - back));
    assert forall|i: int| s.len() - back <= i < s.len() implies is_space(#[trigger] s[i]) by {
        assert(t[i - front] == s[i]);
    }
    if trim(s).len() > 0 {
        assert(trim(s).first() == s[front]);
        assert(trim(s).last() == t[t.len() - back - 1]);
    }
}

/// A half-open range of positions in a text.
#[derive(Debug, Clone, Copy, PartialEq, Eq, Structural)]
pub struct Span {
    pub start: usize,
    pub end: usize,
}

impl Span {
    /// The span lies within a text of `len` characters.
    pub open spec fn within(self, len: nat) -> bool {
        self.start <= self.end <= len
    }

    /// The characters of `s` that the span covers.
    pub open spec fn of(self, s: Seq<char>) -> Seq<char> {
        s.subrange(self.start as int, self.end as int)
    }
}

/// Each span covers, in the text `s`, the part of the same index.
pub open spec fn spans_match(spans: Seq<Span>, s: Seq<char>, parts: Seq<Seq<char>>) -> bool {
    &&& spans.len() == parts.len()
    &&& forall|k: int|
        0 <= k < spans.len() ==> (#[trigger] spans[k]).within(s.len()) && spans[k].of(s) == parts[k]
}

/// Scans `chars` from `from` towards `to` and returns the position at which
/// the scan halts: that of the first character that `stop` halts at, or `to`.
pub fn scan(chars: &Vec<char>, from: usize, to: usize, stop: Stop) -> (at: usize)
    requires
        from <= to <= chars.len(),
    ensures
        from <= at <= to,
        at == from + run_len(chars@.subrange(from as int, to as int), stop),
{
    let mut i = from;
    while i < to && !stop.halts(chars[i])
        invariant
            from <= i <= to <= chars.len(),
            forall|j: int| from <= j < i ==> !stop.halts_at(#[trigger] chars@[j]),
        decreases to - i,
    {
        i += 1;
    }
    proof {
        lemma_run_len_unique(chars@.subrange(from as int, to as int), stop, i - from);
    }
    i
}

/// Narrows `from..to` to the part of it without whitespace at either end.
pub fn trim_span(chars: &Vec<char>, from: usize, to: usize) -> (part: Span)
    requires
        from <= to <= chars.len(),
    ensures
        from <= part.start <= part.end <= to,
        part.of(chars@) == trim(chars@.subrange(from as int, to as int)),
{
    let start = scan(chars, from, to, Stop::NonSpace);
    let mut end = to;
    while end > start && is_whitespace(chars[end - 1])
        invariant
            start <= end <= to <= chars.len(),
            forall|j: int| end <= j < to ==> is_space(#[trigger] chars@[j]),
        decreases end - start,
    {
        end -= 1;
    }
    proof {
        let whole = chars@.subrange(from as int, to as int);
        let front = trim_start(whole);
        assert(front =~= chars@.subrange(start as int, to as int));
        lemma_run_len(whole, Stop::NonSpace);
        if end == start && start < to {
            assert(whole[start - from] == chars@[start as int]);
        }
        lemma_trailing_space_len_unique(front, to - end);
        assert(trim_end(front) =~= chars@.subrange(start as int, end as int));
    }
    Span { start, end }
}

/// Finds the words between `from` and `to`.
pub fn word_spans(chars: &Vec<char>, from: usize, to: usize) -> (spans: Vec<Span>)
    requires
        from <= to <= chars.len(),
    ensures
        spans_match(spans@, chars@, words(chars@.subrange(from as int, to as int))),
{
    let mut spans: Vec<Span> = Vec::new();
    let ghost whole = chars@.subrange(from as int, to as int);
    let ghost mut found: Seq<Seq<char>> = Seq::empty();
    let mut i = from;
    while i < to
        invariant
            from <= i <= to <= chars.len(),
            whole == chars@.subrange(from as int, to as int),
            spans_match(spans@, chars@, found),
                words(whole) == found + words(chars@.subrange(i as int, to as int)),
        decreases to - i,
    {
        let ghost before = chars@.subrange(i as int, to as int);
        let start = scan(chars, i, to, Stop::NonSpace);
        proof {
            lemma_words_skip_spaces(before);
            assert(trim_start(before) =~= chars@.subrange(start as int, to as int));
        }
        if start == to {
            i = to;
        } else {
            let ghost rest = chars@.subrange(start as int, to as int);
            proof {
                lemma_run_len(before, Stop::NonSpace);
                assert(before[start - i] == chars@[start as int]);
                assert(rest[0] == chars@[start as int]);
            }
            let end = scan(chars, start, to, Stop::Space);
            proof {
                let n = (end - start) as int;
                assert(rest.take(n) =~= chars@.subrange(start as int, end as int));
                assert(rest.skip(n) =~= chars@.subrange(end as int, to as int));
                assert(words(rest) == seq![rest.take(n)] + words(rest.skip(n)));
                assert(found + (seq![rest.take(n)] + words(rest.skip(n))) =~= found.push(
                    rest.take(n),
                ) + words(rest.skip(n)));
                found = found.push(rest.take(n));
            }
            spans.push(Span { start, end });
            i = end;
        }
    }
    proof {
        assert(chars@.subrange(to as int, to as int) =~= Seq::<char>::empty());
        assert(found + Seq::<Seq<char>>::empty() =~= found);
    }
    spans
}

/// Cuts `from..to` at each occurrence of `sep`.
pub fn split_spans(chars: &Vec<char>, from: usize, to: usize, sep: char) -> (spans: Vec<Span>)
    requires
        from <= to <= chars.len(),
    ensures
        spans_match(spans@, chars@, split(chars@.subrange(from as int, to as int), sep)),
        spans.len() > 0,
{
    let mut spans: Vec<Span> = Vec::new();
    let ghost whole = chars@.subrange(from as int, to as int);
    let ghost mut found: Seq<Seq<char>> = Seq::empty();
    let mut i = from;
    loop
        invariant_except_break
            from <= i <= to <= chars.len(),
            split(whole, sep) == found + split(chars@.subrange(i as int, to as int), sep),
        invariant
            to <= chars.len(),
            whole == chars@.subrange(from as int, to as int),
            spans_match(spans@, chars@, found),
            ensures
            found == split(whole, sep),
            spans.len() > 0,
        decreases to - i,
    {
        let ghost rest = chars@.subrange(i as int, to as int);
        let end = scan(chars, i, to, Stop::Char(sep));
        proof {
            let n = (end - i) as int;
            assert(rest.take(n) =~= chars@.subrange(i as int, end as int));
            if end < to {
                assert(rest.skip(n + 1) =~= chars@.subrange(end + 1, to as int));
                assert(found + (seq![rest.take(n)] + split(rest.skip(n + 1), sep)) =~= found.push(
                    rest.take(n),
                ) + split(rest.skip(n + 1), sep));
            } else {
                assert(rest.take(n) =~= rest);
                assert(found + seq![rest] =~= found.push(rest));
            }
            found = found.push(rest.take(n));
        }
        spans.push(Span { start: i, end });
        if end == to {
            break;
        }
        i = end + 1;
    }
    spans
}

/// Whether the characters that `part` covers spell `word`.
pub fn span_is(chars: &Vec<char>, part: Span, word: &str) -> (b: bool)
    requires
        part.within(chars@.len()),
    ensures
        b == (part.of(chars@) == word@),
{
    let letters = chars_of(word);
    if part.end - part.start != letters.len() {
        proof {
            assert(part.of(chars@).len() != word@.len());
        }
        return false;
    }
    let mut i: usize = 0;
    while i < letters.len()
        invariant
            part.within(chars@.len()),
            part.end - part.start == letters.len(),
            letters@ == word@,
            i <= letters.len(),
            forall|j: int| 0 <= j < i ==> chars@[part.start + j] == letters@[j],
        decreases letters.len() - i,
    {
        if chars[part.start + i] != letters[i] {
            proof {
                assert(part.of(chars@)[i as int] != letters@[i as int]);
            }
            return false;
        }
        i += 1;
    }
    proof {
        assert(part.of(chars@) =~= letters@);
    }
    true
}

/// The characters that `part` covers, as a string of their own.
pub fn span_text(line: &str, part: Span) -> (text: String)
    requires
        part.within(line@.len()),
    ensures
        text@ == part.of(line@),
{
    line.substring_char(part.start, part.end).to_owned()
}

} // verus!
