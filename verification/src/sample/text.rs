//! The text of the two sample formats, cut into fields.
//!
//! A line of a comma-separated file is a list of fields between commas,
//! each taken without the white space around it. A line of a sparse file
//! is a target followed by words of the form `index:value`, separated by
//! white space. The functions here find the fields and read the indices;
//! what a field is worth as a number is for the caller to say.
use vstd::prelude::*;

verus! {

/// Whether `c` is white space: one of the code points with the Unicode
/// property `White_Space`.
pub open spec fn white(c: char) -> bool {
    let u = c as u32;
    ||| 0x09 <= u <= 0x0D
    ||| u == 0x20
    ||| u == 0x85
    ||| u == 0xA0
    ||| u == 0x1680
    ||| 0x2000 <= u <= 0x200A
    ||| u == 0x2028
    ||| u == 0x2029
    ||| u == 0x202F
    ||| u == 0x205F
    ||| u == 0x3000
}

/// Whether `c` is white space.
pub fn is_whitespace(c: char) -> (r: bool)
    ensures
        r == white(c),
{
    let u: u32 = c as u32;
    (0x09 <= u && u <= 0x0D) || u == 0x20 || u == 0x85 || u == 0xA0 || u == 0x1680 || (0x2000 <= u
        && u <= 0x200A) || u == 0x2028 || u == 0x2029 || u == 0x202F || u == 0x205F || u == 0x3000
}

/// The first position from `start` on, and before `end`, that holds
/// `separator`; `end` where there is none.
pub open spec fn next_separator(text: Seq<char>, separator: char, start: int, end: int) -> int
    decreases end - start,
{
    if start >= end || start < 0 || end > text.len() {
        end
    } else if text[start] == separator {
        start
    } else {
        next_separator(text, separator, start + 1, end)
    }
}

/// A separator is found no earlier than where the search starts.
pub proof fn lemma_next_separator_range(text: Seq<char>, separator: char, start: int, end: int)
    requires
        0 <= start <= end <= text.len(),
    ensures
        start <= next_separator(text, separator, start, end) <= end,
    decreases end - start,
{
    if start < end && text[start] != separator {
        lemma_next_separator_range(text, separator, start + 1, end);
    }
}

/// The fields of `text` between `start` and `end`, as pairs of where a
/// field begins and where it ends: the stretch up to the first
/// separator, then the fields of what follows it. Text without a
/// separator is one field, an empty text too.
pub open spec fn fields(text: Seq<char>, separator: char, start: int, end: int) -> Seq<(int, int)>
    decreases end - start + 1,
{
    if start > end || start < 0 || end > text.len() {
        Seq::empty()
    } else {
        let stop = next_separator(text, separator, start, end);
        if stop >= end {
            seq![(start, end)]
        } else {
            proof {
                lemma_next_separator_range(text, separator, start, end);
            }
            seq![(start, stop)] + fields(text, separator, stop + 1, end)
        }
    }
}

/// Stretches of a text as pairs of integers.
pub open spec fn spans(stretches: Seq<(usize, usize)>) -> Seq<(int, int)> {
    Seq::new(stretches.len(), |k: int| (stretches[k].0 as int, stretches[k].1 as int))
}

/// Cuts the stretch of `text` from `start` to `end` into its fields.
pub fn split(text: &Vec<char>, separator: char, start: usize, end: usize) -> (r: Vec<(usize, usize)>)
    requires
        start <= end <= text@.len(),
    ensures
        spans(r@) == fields(text@, separator, start as int, end as int),
{
    let mut out: Vec<(usize, usize)> = Vec::new();
    let mut begin: usize = start;
    let mut i: usize = start;
    while i < end
        invariant
            start <= begin <= i <= end <= text@.len(),
            spans(out@) + fields(text@, separator, begin as int, end as int) == fields(
                text@,
                separator,
                start as int,
                end as int,
            ),
            next_separator(text@, separator, begin as int, end as int) == next_separator(
                text@,
                separator,
                i as int,
                end as int,
            ),
        decreases end - i,
    {
        if text[i] == separator {
            proof {
                let rest = fields(text@, separator, i as int + 1, end as int);
                let one = seq![(begin as int, i as int)];
                assert(fields(text@, separator, begin as int, end as int) == one + rest);
                assert(spans(out@.push((begin, i))) =~= spans(out@) + one);
                assert((spans(out@) + one) + rest =~= spans(out@) + (one + rest));
            }
            out.push((begin, i));
            begin = i + 1;
        }
        i += 1;
    }
    proof {
        let one = seq![(begin as int, end as int)];
        assert(fields(text@, separator, begin as int, end as int) == one);
        assert(spans(out@.push((begin, end))) =~= spans(out@) + one);
    }
    out.push((begin, end));
    out
}

/// The first position from `start` on, and before `end`, that holds no
/// white space; `end` where there is none.
pub open spec fn skip_white(text: Seq<char>, start: int, end: int) -> int
    decreases end - start,
{
    if start >= end || start < 0 || end > text.len() {
        end
    } else if !white(text[start]) {
        start
    } else {
        skip_white(text, start + 1, end)
    }
}

/// The position after the last one before `end`, and not before
/// `start`, that holds no white space; `start` where there is none.
pub open spec fn drop_white(text: Seq<char>, start: int, end: int) -> int
    decreases end - start,
{
    if start >= end || start < 0 || end > text.len() {
        start
    } else if !white(text[end - 1]) {
        end
    } else {
        drop_white(text, start, end - 1)
    }
}

/// The stretch from `start` to `end` without the white space at its two
/// ends. A stretch of white space alone leaves the empty stretch at
/// `end`.
pub open spec fn trimmed(text: Seq<char>, start: int, end: int) -> (int, int) {
    let a = skip_white(text, start, end);
    (a, drop_white(text, a, end))
}

/// Takes the white space off both ends of the stretch from `start` to
/// `end`.
pub fn trim(text: &Vec<char>, start: usize, end: usize) -> (r: (usize, usize))
    requires
        start <= end <= text@.len(),
    ensures
        (r.0 as int, r.1 as int) == trimmed(text@, start as int, end as int),
        start <= r.0 <= r.1 <= end,
{
    let mut a: usize = start;
    while a < end && is_whitespace(text[a])
        invariant
            start <= a <= end <= text@.len(),
            skip_white(text@, start as int, end as int) == skip_white(text@, a as int, end as int),
        decreases end - a,
    {
        a += 1;
    }
    let mut b: usize = end;
    while b > a && is_whitespace(text[b - 1])
        invariant
            a <= b <= end <= text@.len(),
            drop_white(text@, a as int, end as int) == drop_white(text@, a as int, b as int),
        decreases b,
    {
        b -= 1;
    }
    (a, b)
}

/// Where the white space at the end of a stretch begins: within the
/// stretch, and after a position that holds no white space, if after
/// any.
pub proof fn lemma_drop_range(text: Seq<char>, start: int, end: int)
    requires
        0 <= start <= end <= text.len(),
    ensures
        start <= drop_white(text, start, end) <= end,
        start < drop_white(text, start, end) ==> !white(text[drop_white(text, start, end) - 1]),
    decreases end - start,
{
    if start < end && white(text[end - 1]) {
        lemma_drop_range(text, start, end - 1);
    }
}

/// A stretch without the white space at its ends has no white space at
/// its ends to take off: trimming twice is trimming once.
pub proof fn lemma_trim_is_idempotent(text: Seq<char>, start: int, end: int)
    requires
        0 <= start <= end <= text.len(),
    ensures
        ({
            let once = trimmed(text, start, end);
            trimmed(text, once.0, once.1) == once
        }),
{
    lemma_skip_range(text, start, end);
    let a = skip_white(text, start, end);
    lemma_drop_range(text, a, end);
    let b = drop_white(text, a, end);
    if a < b {
        lemma_skip_range(text, a, b);
        lemma_drop_range(text, a, b);
    }
}

/// Whether position `i` lies in the stretch `word`.
pub open spec fn in_word(word: (usize, usize), i: int) -> bool {
    word.0 <= i < word.1
}

/// Whether one of the stretches holds position `i`.
pub open spec fn covered(words: Seq<(usize, usize)>, i: int) -> bool {
    exists|k: int| 0 <= k < words.len() && in_word(#[trigger] words[k], i)
}

/// Whether stretch `k + 1` begins after the end of stretch `k`, with at
/// least one position between them.
pub open spec fn apart(words: Seq<(usize, usize)>, k: int) -> bool {
    words[k].1 < words[k + 1].0
}

/// Whether `words` are the words of `text`: its longest stretches
/// without white space, in order. Every stretch is non-empty and holds
/// no white space, consecutive stretches do not touch, and every
/// position that holds no white space lies in one of them.
pub open spec fn are_words(text: Seq<char>, words: Seq<(usize, usize)>) -> bool {
    &&& forall|k: int| 0 <= k < words.len() ==> (#[trigger] words[k]).0 < words[k].1 <= text.len()
    &&& forall|k: int, i: int|
        0 <= k < words.len() && #[trigger] in_word(words[k], i) ==> !white(text[i])
    &&& forall|k: int| 0 <= k < words.len() - 1 ==> #[trigger] apart(words, k)
    &&& forall|i: int| 0 <= i < text.len() && !white(#[trigger] text[i]) ==> covered(words, i)
}

/// The first position from `start` on, and before `end`, that holds
/// white space; `end` where there is none.
pub open spec fn skip_black(text: Seq<char>, start: int, end: int) -> int
    decreases end - start,
{
    if start >= end || start < 0 || end > text.len() {
        end
    } else if white(text[start]) {
        start
    } else {
        skip_black(text, start + 1, end)
    }
}

/// Where a search for white space or for its absence ends: not before
/// its start, not after its end, and past a start that does not hold
/// what is searched for.
pub proof fn lemma_skip_range(text: Seq<char>, start: int, end: int)
    requires
        0 <= start <= end <= text.len(),
    ensures
        start <= skip_white(text, start, end) <= end,
        start <= skip_black(text, start, end) <= end,
        start < end && !white(text[start]) ==> start < skip_black(text, start, end),
        skip_white(text, start, end) < end ==> !white(text[skip_white(text, start, end)]),
        skip_black(text, start, end) < end ==> white(text[skip_black(text, start, end)]),
    decreases end - start,
{
    if start < end {
        lemma_skip_range(text, start + 1, end);
    }
}

/// The words of `text` from `start` on, as pairs of where a word begins
/// and where it ends: the stretch from the first position that holds no
/// white space up to the next that does, then the words of what
/// follows.
pub open spec fn words_from(text: Seq<char>, start: int) -> Seq<(int, int)>
    decreases text.len() - start,
{
    if start < 0 || start >= text.len() {
        Seq::empty()
    } else {
        let a = skip_white(text, start, text.len() as int);
        if a >= text.len() {
            Seq::empty()
        } else {
            let b = skip_black(text, a, text.len() as int);
            proof {
                lemma_skip_range(text, start, text.len() as int);
                lemma_skip_range(text, a, text.len() as int);
            }
            seq![(a, b)] + words_from(text, b)
        }
    }
}

/// Cuts `text` into its words.
pub fn split_whitespace(text: &Vec<char>) -> (r: Vec<(usize, usize)>)
    ensures
        spans(r@) == words_from(text@, 0),
        are_words(text@, r@),
{
    let n: usize = text.len();
    let mut out: Vec<(usize, usize)> = Vec::new();
    let mut i: usize = 0;
    while i < n
        invariant
            n == text@.len(),
            i <= n,
            spans(out@) + words_from(text@, i as int) == words_from(text@, 0),
            forall|k: int| 0 <= k < out@.len() ==> (#[trigger] out@[k]).0 < out@[k].1 <= i,
            forall|k: int, j: int|
                0 <= k < out@.len() && #[trigger] in_word(out@[k], j) ==> !white(text@[j]),
            forall|k: int| 0 <= k < out@.len() - 1 ==> #[trigger] apart(out@, k),
            forall|j: int| 0 <= j < i && !white(#[trigger] text@[j]) ==> covered(out@, j),
            out@.len() > 0 && out@[out@.len() - 1].1 == i ==> i == n || white(text@[i as int]),
        decreases n - i,
    {
        if is_whitespace(text[i]) {
            assert(words_from(text@, i as int) == words_from(text@, i as int + 1));
            i += 1;
        } else {
            let begin: usize = i;
            while i < n && !is_whitespace(text[i])
                invariant
                    n == text@.len(),
                    begin <= i <= n,
                    begin < n,
                    !white(text@[begin as int]),
                    forall|j: int| begin <= j < i ==> !white(#[trigger] text@[j]),
                    skip_black(text@, begin as int, n as int) == skip_black(
                        text@,
                        i as int,
                        n as int,
                    ),
                decreases n - i,
            {
                i += 1;
            }
            let ghost before = out@;
            out.push((begin, i));
            proof {
                let after = out@;
                let one = seq![(begin as int, i as int)];
                let rest = words_from(text@, i as int);
                assert(skip_white(text@, begin as int, n as int) == begin);
                assert(skip_black(text@, begin as int, n as int) == i);
                assert(words_from(text@, begin as int) == one + rest);
                assert(spans(after) =~= spans(before) + one);
                assert((spans(before) + one) + rest =~= spans(before) + (one + rest));
                assert forall|k: int| 0 <= k < after.len() - 1 implies #[trigger] apart(
                    after,
                    k,
                ) by {
                    if k < before.len() - 1 {
                        assert(apart(before, k));
                    }
                }
                assert forall|j: int| 0 <= j < i && !white(#[trigger] text@[j]) implies covered(
                    after,
                    j,
                ) by {
                    if j < begin {
                        assert(covered(before, j));
                        let k = choose|k: int| 0 <= k < before.len() && in_word(
                            #[trigger] before[k],
                            j,
                        );
                        assert(in_word(after[k], j));
                    } else {
                        assert(in_word(after[before.len() as int], j));
                    }
                }
            }
        }
    }
    assert(words_from(text@, n as int) =~= Seq::<(int, int)>::empty());
    out
}

/// Whether `c` is one of the digits `0` to `9`.
pub open spec fn digit(c: char) -> bool {
    0x30 <= c as u32 <= 0x39
}

/// The number that the digits from `start` to `end` write in base ten.
pub open spec fn digits_value(text: Seq<char>, start: int, end: int) -> nat
    decreases end - start,
{
    if end <= start || start < 0 || end > text.len() {
        0
    } else {
        (digits_value(text, start, end - 1) * 10 + (text[end - 1] as u32 - 0x30)) as nat
    }
}

/// Whether the stretch from `start` to `end` is one digit or more and
/// nothing else.
pub open spec fn all_digits(text: Seq<char>, start: int, end: int) -> bool {
    &&& 0 <= start < end <= text.len()
    &&& forall|k: int| start <= k < end ==> digit(#[trigger] text[k])
}

/// Where the digits begin: after a leading `+`, if there is one.
pub open spec fn after_sign(text: Seq<char>, start: int, end: int) -> int {
    if 0 <= start < end <= text.len() && text[start] == '+' {
        start + 1
    } else {
        start
    }
}

/// The index that the stretch from `start` to `end` writes: digits in
/// base ten, after at most one `+`, whose number a machine word holds.
pub open spec fn index_value(text: Seq<char>, start: int, end: int) -> Option<usize> {
    let from = after_sign(text, start, end);
    if all_digits(text, from, end) && digits_value(text, from, end) <= usize::MAX {
        Some(digits_value(text, from, end) as usize)
    } else {
        None
    }
}

/// More digits never write a smaller number.
pub proof fn lemma_digits_value_grows(text: Seq<char>, start: int, mid: int, end: int)
    requires
        0 <= start <= mid <= end <= text.len(),
        forall|k: int| start <= k < end ==> digit(#[trigger] text[k]),
    ensures
        digits_value(text, start, mid) <= digits_value(text, start, end),
    decreases end - mid,
{
    if mid < end {
        lemma_digits_value_grows(text, start, mid, end - 1);
        assert(digit(text[end - 1]));
    }
}

/// Reads the stretch from `start` to `end` as an index.
pub fn parse_index(text: &Vec<char>, start: usize, end: usize) -> (r: Option<usize>)
    requires
        start <= end <= text@.len(),
    ensures
        r == index_value(text@, start as int, end as int),
{
    let from: usize = if start < end && text[start] == '+' {
        start + 1
    } else {
        start
    };
    if from >= end {
        return None;
    }
    let mut value: usize = 0;
    let mut i: usize = from;
    while i < end
        invariant
            from <= i <= end <= text@.len(),
            from < end,
            from == after_sign(text@, start as int, end as int),
            forall|k: int| from <= k < i ==> digit(#[trigger] text@[k]),
            value == digits_value(text@, from as int, i as int),
        decreases end - i,
    {
        let u: u32 = text[i] as u32;
        if u < 0x30 || u > 0x39 {
            assert(!digit(text@[i as int]));
            return None;
        }
        let d: usize = (u - 0x30) as usize;
        if value > (usize::MAX - d) / 10 {
            proof {
                assert(value * 10 + d > usize::MAX);
                assert(digits_value(text@, from as int, i as int + 1) > usize::MAX);
                if all_digits(text@, from as int, end as int) {
                    lemma_digits_value_grows(text@, from as int, i as int + 1, end as int);
                }
            }
            return None;
        }
        value = value * 10 + d;
        i += 1;
    }
    Some(value)
}

/// What a word of the form `index:value` holds: the index that the
/// first field writes, and the stretch of the second field, both taken
/// without the white space around them. Nothing where the word has no
/// `:` or the first field writes no index.
pub open spec fn word_value(text: Seq<char>, start: int, end: int) -> Option<(usize, (int, int))> {
    let parts = fields(text, ':', start, end);
    if parts.len() < 2 {
        None
    } else {
        let first = trimmed(text, parts[0].0, parts[0].1);
        let second = trimmed(text, parts[1].0, parts[1].1);
        match index_value(text, first.0, first.1) {
            Some(index) => Some((index, second)),
            None => None,
        }
    }
}

/// Every field lies within the stretch that was cut.
pub proof fn lemma_fields_within(text: Seq<char>, separator: char, start: int, end: int, k: int)
    requires
        0 <= start <= end <= text.len(),
        0 <= k < fields(text, separator, start, end).len(),
    ensures
        start <= fields(text, separator, start, end)[k].0 <= fields(text, separator, start, end)[k].1
            <= end,
    decreases end - start + 1,
{
    let stop = next_separator(text, separator, start, end);
    lemma_next_separator_range(text, separator, start, end);
    if stop < end && k > 0 {
        lemma_fields_within(text, separator, stop + 1, end, k - 1);
    }
}

/// Reads a word of the form `index:value`.
pub fn index_and_feature(text: &Vec<char>, start: usize, end: usize) -> (r: Option<
    (usize, (usize, usize)),
>)
    requires
        start <= end <= text@.len(),
    ensures
        match (r, word_value(text@, start as int, end as int)) {
            (Some(got), Some(want)) => got.0 == want.0 && got.1.0 == want.1.0 && got.1.1
                == want.1.1,
            (None, None) => true,
            _ => false,
        },
{
    let parts: Vec<(usize, usize)> = split(text, ':', start, end);
    if parts.len() < 2 {
        return None;
    }
    proof {
        let all = fields(text@, ':', start as int, end as int);
        assert(spans(parts@).len() == parts@.len());
        assert(spans(parts@)[0] == all[0]);
        assert(spans(parts@)[1] == all[1]);
        lemma_fields_within(text@, ':', start as int, end as int, 0);
        lemma_fields_within(text@, ':', start as int, end as int, 1);
    }
    let first: (usize, usize) = trim(text, parts[0].0, parts[0].1);
    let second: (usize, usize) = trim(text, parts[1].0, parts[1].1);
    match parse_index(text, first.0, first.1) {
        Some(index) => Some((index, second)),
        None => None,
    }
}

/// Cuts a line of comma-separated values into its fields, each without
/// the white space around it.
pub fn csv_record(line: &Vec<char>) -> (r: Vec<(usize, usize)>)
    ensures
        r@.len() == fields(line@, ',', 0, line@.len() as int).len(),
        forall|k: int|
            0 <= k < r@.len() ==> (#[trigger] r@[k]).0 <= r@[k].1 <= line@.len() && (
                r@[k].0 as int,
                r@[k].1 as int,
            ) == trimmed(
                line@,
                fields(line@, ',', 0, line@.len() as int)[k].0,
                fields(line@, ',', 0, line@.len() as int)[k].1,
            ),
{
    let parts: Vec<(usize, usize)> = split(line, ',', 0, line.len());
    let ghost all = fields(line@, ',', 0, line@.len() as int);
    assert(spans(parts@).len() == parts@.len());
    let mut out: Vec<(usize, usize)> = Vec::new();
    let mut k: usize = 0;
    while k < parts.len()
        invariant
            spans(parts@) == all,
            all == fields(line@, ',', 0, line@.len() as int),
            k <= parts@.len(),
            out@.len() == k,
            forall|j: int|
                0 <= j < k ==> (#[trigger] out@[j]).0 <= out@[j].1 <= line@.len() && (
                    out@[j].0 as int,
                    out@[j].1 as int,
                ) == trimmed(line@, all[j].0, all[j].1),
        decreases parts@.len() - k,
    {
        proof {
            assert(spans(parts@)[k as int] == all[k as int]);
            lemma_fields_within(line@, ',', 0, line@.len() as int, k as int);
        }
        let stretch: (usize, usize) = trim(line, parts[k].0, parts[k].1);
        out.push(stretch);
        k += 1;
    }
    out
}

/// What the target of a line of a sparse file is: the stretch of the
/// first word. A line has one where it has a word and every further
/// word is of the form `index:value`.
pub open spec fn is_sparse_record(
    line: Seq<char>,
    r: Option<((usize, usize), Vec<(usize, (usize, usize))>)>,
) -> bool {
    let words = words_from(line, 0);
    match r {
        Some((target, entries)) => {
            &&& words.len() >= 1
            &&& (target.0 as int, target.1 as int) == words[0]
            &&& entries@.len() == words.len() - 1
            &&& forall|k: int|
                0 <= k < entries@.len() ==> word_value(line, words[k + 1].0, words[k + 1].1)
                    == Some(
                    (
                        (#[trigger] entries@[k]).0,
                        (entries@[k].1.0 as int, entries@[k].1.1 as int),
                    ),
                )
        },
        None => words.len() == 0 || exists|k: int|
            1 <= k < words.len() && word_value(line, (#[trigger] words[k]).0, words[k].1) is None,
    }
}

/// Reads a line of a sparse file: a target followed by words of the
/// form `index:value`, separated by white space. The result is the
/// stretch of the target and, for every further word, its index and the
/// stretch of its value; there is none where the line has no word or a
/// word after the first is not of that form.
pub fn svmlight_record(line: &Vec<char>) -> (r: Option<
    ((usize, usize), Vec<(usize, (usize, usize))>),
>)
    ensures
        is_sparse_record(line@, r),
{
    let words: Vec<(usize, usize)> = split_whitespace(line);
    let ghost all = words_from(line@, 0);
    assert(spans(words@).len() == words@.len());
    if words.len() == 0 {
        return None;
    }
    let mut entries: Vec<(usize, (usize, usize))> = Vec::new();
    let mut k: usize = 1;
    while k < words.len()
        invariant
            are_words(line@, words@),
            spans(words@) == all,
            all == words_from(line@, 0),
            1 <= k <= words@.len(),
            entries@.len() == k - 1,
            forall|j: int|
                0 <= j < entries@.len() ==> word_value(line@, all[j + 1].0, all[j + 1].1) == Some(
                    (
                        (#[trigger] entries@[j]).0,
                        (entries@[j].1.0 as int, entries@[j].1.1 as int),
                    ),
                ),
        decreases words@.len() - k,
    {
        assert(words@[k as int].0 < words@[k as int].1 <= line@.len());
        assert(spans(words@)[k as int] == all[k as int]);
        match index_and_feature(line, words[k].0, words[k].1) {
            Some(entry) => {
                entries.push(entry);
            },
            None => {
                assert(word_value(line@, all[k as int].0, all[k as int].1) is None);
                return None;
            },
        }
        k += 1;
    }
    let target: (usize, usize) = words[0];
    assert(spans(words@)[0] == all[0]);
    Some((target, entries))
}

} // verus!
