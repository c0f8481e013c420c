use vstd::prelude::*;

verus! {

/// Whether `b` separates the words of a line: a space or a tab.
pub open spec fn is_blank(b: u8) -> bool {
    b == 32 || b == 9
}

/// Whether `b` is an ASCII decimal digit.
pub open spec fn is_digit(b: u8) -> bool {
    48 <= b <= 57
}

/// How many bytes of `s` come before its first blank.
pub open spec fn word_len(s: Seq<u8>) -> nat
    decreases s.len(),
{
    if s.len() == 0 || is_blank(s[0]) {
        0
    } else {
        1 + word_len(s.drop_first())
    }
}

proof fn lemma_word_len_bounds(s: Seq<u8>)
    ensures
        word_len(s) <= s.len(),
        s.len() > 0 && !is_blank(s[0]) ==> word_len(s) > 0,
    decreases s.len(),
{
    if s.len() > 0 && !is_blank(s[0]) {
        lemma_word_len_bounds(s.drop_first());
    }
}

/// The words of a line: its maximal runs of bytes that are not blank, in
/// order.
pub open spec fn words(s: Seq<u8>) -> Seq<Seq<u8>>
    decreases s.len(),
    via words_decreases
{
    if s.len() == 0 {
        seq![]
    } else if is_blank(s[0]) {
        words(s.drop_first())
    } else {
        seq![s.take(word_len(s) as int)] + words(s.skip(word_len(s) as int))
    }
}

#[via_fn]
proof fn words_decreases(s: Seq<u8>) {
    lemma_word_len_bounds(s);
}

/// A blank at `pos` is skipped.
proof fn lemma_words_blank(s: Seq<u8>, pos: int)
    requires
        0 <= pos < s.len(),
        is_blank(s[pos]),
    ensures
        words(s.skip(pos)) == words(s.skip(pos + 1)),
{
    assert(s.skip(pos).drop_first() =~= s.skip(pos + 1));
}

/// The bytes in `start..end` hold no blank and are followed by a blank or by
/// the end of the line.
proof fn lemma_word_len_run(s: Seq<u8>, start: int, end: int)
    requires
        0 <= start <= end <= s.len(),
        forall|k: int| start <= k < end ==> !is_blank(#[trigger] s[k]),
        end == s.len() || is_blank(s[end]),
    ensures
        word_len(s.skip(start)) == end - start,
    decreases end - start,
{
    if start < end {
        lemma_word_len_run(s, start + 1, end);
        assert(s.skip(start).drop_first() =~= s.skip(start + 1));
    }
}

/// A word at `start..end` comes first among the words from `start`.
proof fn lemma_words_run(s: Seq<u8>, start: int, end: int)
    requires
        0 <= start < end <= s.len(),
        forall|k: int| start <= k < end ==> !is_blank(#[trigger] s[k]),
        end == s.len() || is_blank(s[end]),
    ensures
        words(s.skip(start)) == seq![s.subrange(start, end)] + words(s.skip(end)),
{
    lemma_word_len_run(s, start, end);
    assert(s.skip(start).take(end - start) =~= s.subrange(start, end));
    assert(s.skip(start).skip(end - start) =~= s.skip(end));
}

/// The spans of the line's bytes that `spans` gives.
pub open spec fn spans_of(s: Seq<u8>, spans: Seq<(usize, usize)>) -> Seq<Seq<u8>> {
    spans.map_values(|p: (usize, usize)| s.subrange(p.0 as int, p.1 as int))
}

/// The start and end of each word of `line`.
fn split_words(line: &[u8]) -> (spans: Vec<(usize, usize)>)
    ensures
        spans_of(line@, spans@) == words(line@),
        forall|i: int|
            0 <= i < spans@.len() ==> #[trigger] spans@[i].0 <= spans@[i].1 <= line@.len(),
{
    let mut spans: Vec<(usize, usize)> = Vec::new();
    let mut pos: usize = 0;
    proof {
        assert(line@.skip(0) =~= line@);
        assert(spans_of(line@, spans@) + words(line@) =~= words(line@));
    }
    while pos < line.len()
        invariant
            pos <= line@.len(),
            words(line@) == spans_of(line@, spans@) + words(line@.skip(pos as int)),
            forall|i: int|
                0 <= i < spans@.len() ==> #[trigger] spans@[i].0 <= spans@[i].1 <= line@.len(),
        decreases line@.len() - pos,
    {
        if line[pos] == 32 || line[pos] == 9 {
            proof {
                lemma_words_blank(line@, pos as int);
            }
            pos = pos + 1;
        } else {
            let start = pos;
            while pos < line.len() && !(line[pos] == 32 || line[pos] == 9)
                invariant
                    start <= pos <= line@.len(),
                    forall|k: int| start <= k < pos ==> !is_blank(#[trigger] line@[k]),
                    start < line@.len(),
                    !is_blank(line@[start as int]),
                    words(line@) == spans_of(line@, spans@) + words(line@.skip(start as int)),
                    forall|i: int|
                        0 <= i < spans@.len() ==> #[trigger] spans@[i].0 <= spans@[i].1
                            <= line@.len(),
                decreases line@.len() - pos,
            {
                pos = pos + 1;
            }
            proof {
                lemma_words_run(line@, start as int, pos as int);
                assert(spans_of(line@, spans@.push((start, pos))) =~= spans_of(line@, spans@).push(
                    line@.subrange(start as int, pos as int),
                ));
            }
            let ghost before = spans@;
            spans.push((start, pos));
            assert forall|i: int| 0 <= i < spans@.len() implies #[trigger] spans@[i].0 <= spans@[i].1
                <= line@.len() by {
                if i < before.len() {
                    assert(spans@[i] == before[i]);
                    assert(before[i].0 <= before[i].1 <= line@.len());
                } else {
                    assert(spans@[i] == (start, pos));
                }
            }
        }
    }
    proof {
        assert(line@.skip(pos as int) =~= Seq::<u8>::empty());
        assert(spans_of(line@, spans@) + seq![] =~= spans_of(line@, spans@));
    }
    spans
}

/// The number that the ASCII digits `w` write in base ten.
pub open spec fn decimal_value(w: Seq<u8>) -> nat
    decreases w.len(),
{
    if w.len() == 0 {
        0
    } else {
        decimal_value(w.drop_last()) * 10 + (w.last() - 48) as nat
    }
}

/// Whether `w` is a non-empty run of decimal digits.
pub open spec fn is_decimal(w: Seq<u8>) -> bool {
    w.len() > 0 && forall|i: int| 0 <= i < w.len() ==> is_digit(#[trigger] w[i])
}

/// The number that `w` writes, where it writes one no greater than `max`.
pub open spec fn number_within(w: Seq<u8>, max: nat) -> Option<nat> {
    if is_decimal(w) && decimal_value(w) <= max {
        Some(decimal_value(w))
    } else {
        None
    }
}

/// A channel index: a decimal number that fits in eight bits.
pub open spec fn index_value(w: Seq<u8>) -> Option<u8> {
    match number_within(w, 255) {
        Some(v) => Some(v as u8),
        None => None,
    }
}

/// A run-time limit in milliseconds: a decimal number that fits in 32 bits.
pub open spec fn limit_value(w: Seq<u8>) -> Option<u32> {
    match number_within(w, 0xffff_ffff) {
        Some(v) => Some(v as u32),
        None => None,
    }
}

proof fn lemma_prefix_value_le(w: Seq<u8>, j: int)
    requires
        0 <= j <= w.len(),
        forall|i: int| 0 <= i < w.len() ==> is_digit(#[trigger] w[i]),
    ensures
        decimal_value(w.take(j)) <= decimal_value(w),
    decreases w.len(),
{
    if j < w.len() {
        let d = w.drop_last();
        assert forall|i: int| 0 <= i < d.len() implies is_digit(#[trigger] d[i]) by {
            assert(d[i] == w[i]);
        }
        lemma_prefix_value_le(d, j);
        assert(d.take(j) =~= w.take(j));
    } else {
        assert(w.take(j) =~= w);
    }
}

/// Reads the decimal number written in `line[start..end]`, if it is one no
/// greater than `max`.
fn parse_number(line: &[u8], start: usize, end: usize, max: u32) -> (r: Option<u32>)
    requires
        start <= end <= line@.len(),
    ensures
        r matches Some(v) ==> number_within(line@.subrange(start as int, end as int), max as nat)
            == Some(v as nat),
        r is None ==> number_within(line@.subrange(start as int, end as int), max as nat) is None,
{
    let ghost w = line@.subrange(start as int, end as int);
    if start == end {
        return None;
    }
    let mut value: u64 = 0;
    let mut i: usize = start;
    proof {
        assert(w.take(0) =~= Seq::<u8>::empty());
    }
    while i < end
        invariant
            start <= i <= end <= line@.len(),
            w == line@.subrange(start as int, end as int),
            value <= max,
            value == decimal_value(w.take(i - start)),
            forall|k: int| 0 <= k < i - start ==> is_digit(#[trigger] w[k]),
        decreases end - i,
    {
        let b = line[i];
        if b < 48 || b > 57 {
            assert(!is_digit(w[i - start]));
            return None;
        }
        value = value * 10 + (b - 48) as u64;
        proof {
            assert(w.take(i + 1 - start).drop_last() =~= w.take(i - start));
        }
        if value > max as u64 {
            proof {
                let j = i + 1 - start;
                if is_decimal(w) {
                    lemma_prefix_value_le(w, j);
                }
            }
            return None;
        }
        i = i + 1;
    }
    proof {
        assert(w.take(end - start) =~= w);
    }
    Some(value as u32)
}

/// Whether `line[start..end]` holds exactly the bytes of `word`.
fn span_is(line: &[u8], start: usize, end: usize, word: &[u8]) -> (r: bool)
    requires
        start <= end <= line@.len(),
    ensures
        r == (line@.subrange(start as int, end as int) == word@),
{
    if end - start != word.len() {
        return false;
    }
    let mut i: usize = 0;
    while i < word.len()
        invariant
            end - start == word@.len(),
            start <= end <= line@.len(),
            i <= word@.len(),
            forall|k: int| 0 <= k < i ==> line@[start + k] == #[trigger] word@[k],
        decreases word@.len() - i,
    {
        if line[start + i] != word[i] {
            assert(line@.subrange(start as int, end as int)[i as int] != word@[i as int]);
            return false;
        }
        i = i + 1;
    }
    assert(line@.subrange(start as int, end as int) =~= word@);
    true
}

/// What a line asks for.
#[allow(inconsistent_fields)]
#[derive(Debug, Clone, Copy, PartialEq, Eq, Structural)]
pub enum Command {
    /// Stops the channel at `index`, or every channel where there is none.
    Stop { index: Option<u8> },
    /// Starts the channel at `index` upwards.
    Up { index: u8 },
    /// Starts the channel at `index` downwards.
    Down { index: u8 },
    /// Sets the run-time limits of the channel at `index`; `None` is no limit.
    Limit { index: u8, up_limit: Option<u32>, down_limit: Option<u32> },
    /// Asks for the help text.
    Help,
}

/// The ASCII bytes of `stop`.
pub open spec fn stop_word() -> Seq<u8> {
    seq![115u8, 116, 111, 112]
}

/// The ASCII bytes of `up`.
pub open spec fn up_word() -> Seq<u8> {
    seq![117u8, 112]
}

/// The ASCII bytes of `down`.
pub open spec fn down_word() -> Seq<u8> {
    seq![100u8, 111, 119, 110]
}

/// The ASCII bytes of `limit`.
pub open spec fn limit_word() -> Seq<u8> {
    seq![108u8, 105, 109, 105, 116]
}

/// The ASCII bytes of `help`.
pub open spec fn help_word() -> Seq<u8> {
    seq![104u8, 101, 108, 112]
}

/// The limits that the words after `limit <index>` set: an optional
/// `up <ms>` followed by an optional `down <ms>`.
pub open spec fn limit_clauses(w: Seq<Seq<u8>>) -> Option<(Option<u32>, Option<u32>)> {
    if w.len() == 0 {
        Some((None, None))
    } else if w.len() == 2 && w[0] == up_word() && limit_value(w[1]) is Some {
        Some((limit_value(w[1]), None))
    } else if w.len() == 2 && w[0] == down_word() && limit_value(w[1]) is Some {
        Some((None, limit_value(w[1])))
    } else if w.len() == 4 && w[0] == up_word() && limit_value(w[1]) is Some && w[2]
        == down_word() && limit_value(w[3]) is Some {
        Some((limit_value(w[1]), limit_value(w[3])))
    } else {
        None
    }
}

/// The command that the words `w` of a line spell, if any.
pub open spec fn command_of_words(w: Seq<Seq<u8>>) -> Option<Command> {
    if w.len() == 0 {
        None
    } else if w[0] == stop_word() {
        if w.len() == 1 {
            Some(Command::Stop { index: None })
        } else if w.len() == 2 && index_value(w[1]) is Some {
            Some(Command::Stop { index: index_value(w[1]) })
        } else {
            None
        }
    } else if w[0] == up_word() {
        if w.len() == 2 && index_value(w[1]) is Some {
            Some(Command::Up { index: index_value(w[1])->0 })
        } else {
            None
        }
    } else if w[0] == down_word() {
        if w.len() == 2 && index_value(w[1]) is Some {
            Some(Command::Down { index: index_value(w[1])->0 })
        } else {
            None
        }
    } else if w[0] == limit_word() {
        if w.len() >= 2 && index_value(w[1]) is Some && limit_clauses(w.skip(2)) is Some {
            Some(
                Command::Limit {
                    index: index_value(w[1])->0,
                    up_limit: (limit_clauses(w.skip(2))->0).0,
                    down_limit: (limit_clauses(w.skip(2))->0).1,
                },
            )
        } else {
            None
        }
    } else if w[0] == help_word() && w.len() == 1 {
        Some(Command::Help)
    } else {
        None
    }
}

/// The command that a line spells, if any. Blanks around and between the
/// words do not matter; anything but the words of one command is refused.
pub open spec fn parse_line(line: Seq<u8>) -> Option<Command> {
    command_of_words(words(line))
}

fn stop_keyword() -> (r: [u8; 4])
    ensures
        r@ == stop_word(),
{
    [115, 116, 111, 112]
}

fn up_keyword() -> (r: [u8; 2])
    ensures
        r@ == up_word(),
{
    [117, 112]
}

fn down_keyword() -> (r: [u8; 4])
    ensures
        r@ == down_word(),
{
    [100, 111, 119, 110]
}

fn limit_keyword() -> (r: [u8; 5])
    ensures
        r@ == limit_word(),
{
    [108, 105, 109, 105, 116]
}

fn help_keyword() -> (r: [u8; 4])
    ensures
        r@ == help_word(),
{
    [104, 101, 108, 112]
}

/// The limits that the words after `limit <index>` set, read from the spans
/// of `line` from the third on.
fn limit_clauses_of(line: &[u8], spans: &Vec<(usize, usize)>) -> (r: Option<(Option<u32>, Option<u32>)>)
    requires
        spans@.len() >= 2,
        forall|i: int|
            0 <= i < spans@.len() ==> #[trigger] spans@[i].0 <= spans@[i].1 <= line@.len(),
    ensures
        r == limit_clauses(spans_of(line@, spans@).skip(2)),
{
    let ghost w = spans_of(line@, spans@).skip(2);
    let n = spans.len() - 2;
    if n == 0 {
        return Some((None, None));
    }
    if n != 2 && n != 4 {
        return None;
    }
    let (s0, e0) = spans[2];
    let (s1, e1) = spans[3];
    assert(w[0] == line@.subrange(s0 as int, e0 as int));
    assert(w[1] == line@.subrange(s1 as int, e1 as int));
    let first = parse_number(line, s1, e1, 0xffff_ffff);
    if first.is_none() {
        return None;
    }
    if n == 2 {
        if span_is(line, s0, e0, &up_keyword()) {
            Some((first, None))
        } else if span_is(line, s0, e0, &down_keyword()) {
            Some((None, first))
        } else {
            None
        }
    } else {
        let (s2, e2) = spans[4];
        let (s3, e3) = spans[5];
        assert(w[2] == line@.subrange(s2 as int, e2 as int));
        assert(w[3] == line@.subrange(s3 as int, e3 as int));
        if span_is(line, s0, e0, &up_keyword()) && span_is(line, s2, e2, &down_keyword()) {
            let second = parse_number(line, s3, e3, 0xffff_ffff);
            if second.is_none() {
                None
            } else {
                Some((first, second))
            }
        } else {
            None
        }
    }
}

/// The command that the words of `line` at `spans` spell, if any.
fn command_of(line: &[u8], spans: &Vec<(usize, usize)>) -> (r: Option<Command>)
    requires
        forall|i: int|
            0 <= i < spans@.len() ==> #[trigger] spans@[i].0 <= spans@[i].1 <= line@.len(),
    ensures
        r == command_of_words(spans_of(line@, spans@)),
{
    let ghost w = spans_of(line@, spans@);
    let n = spans.len();
    if n == 0 {
        return None;
    }
    let (s0, e0) = spans[0];
    assert(w[0] == line@.subrange(s0 as int, e0 as int));
    let index = if n >= 2 {
        let (s1, e1) = spans[1];
        assert(w[1] == line@.subrange(s1 as int, e1 as int));
        match parse_number(line, s1, e1, 255) {
            Some(v) => Some(v as u8),
            None => None,
        }
    } else {
        None
    };
    assert(n >= 2 ==> index == index_value(w[1]));
    if span_is(line, s0, e0, &stop_keyword()) {
        if n == 1 {
            Some(Command::Stop { index: None })
        } else if n == 2 && index.is_some() {
            Some(Command::Stop { index })
        } else {
            None
        }
    } else if span_is(line, s0, e0, &up_keyword()) {
        match index {
            Some(i) if n == 2 => Some(Command::Up { index: i }),
            _ => None,
        }
    } else if span_is(line, s0, e0, &down_keyword()) {
        match index {
            Some(i) if n == 2 => Some(Command::Down { index: i }),
            _ => None,
        }
    } else if span_is(line, s0, e0, &limit_keyword()) {
        match index {
            Some(i) => match limit_clauses_of(line, spans) {
                Some((up_limit, down_limit)) => Some(Command::Limit { index: i, up_limit, down_limit }),
                None => None,
            },
            None => None,
        }
    } else if n == 1 && span_is(line, s0, e0, &help_keyword()) {
        Some(Command::Help)
    } else {
        None
    }
}

impl Command {
    /// Reads the command that one line spells, or fails where it spells
    /// none.
    pub fn parse(input: &[u8]) -> (r: Result<Command, ()>)
        ensures
            r == (match parse_line(input@) {
                Some(c) => Ok(c),
                None => Err(()),
            }),
    {
        let spans = split_words(input);
        match command_of(input, &spans) {
            Some(c) => Ok(c),
            None => Err(()),
        }
    }
}

} // verus!
