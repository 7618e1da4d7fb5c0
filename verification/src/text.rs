//! Operations on text that the rest of the library is written with, each with
//! its meaning as a function on character sequences.

use vstd::prelude::*;
use vstd::string::*;

verus! {

/// `text` begins with `prefix`.
pub open spec fn has_prefix(text: Seq<char>, prefix: Seq<char>) -> bool {
    prefix.len() <= text.len() && text.subrange(0, prefix.len() as int) == prefix
}

/// The pieces of `text` between occurrences of `mark`. There is always one piece
/// more than there are marks, and a piece may be empty.
pub open spec fn split_on(text: Seq<char>, mark: char) -> Seq<Seq<char>>
    decreases text.len(),
{
    if text.len() == 0 {
        seq![Seq::<char>::empty()]
    } else {
        let pieces = split_on(text.drop_last(), mark);
        if text.last() == mark {
            pieces.push(Seq::empty())
        } else {
            pieces.update(pieces.len() - 1, pieces.last().push(text.last()))
        }
    }
}

/// The character that stands for a decimal digit.
pub open spec fn digit(value: nat) -> char {
    seq!['0', '1', '2', '3', '4', '5', '6', '7', '8', '9'][value as int]
}

/// `value` written in decimal, without leading zeros.
pub open spec fn decimal_text(value: nat) -> Seq<char>
    decreases value,
{
    if value < 10 {
        seq![digit(value)]
    } else {
        decimal_text(value / 10).push(digit(value % 10))
    }
}

/// The characters of a string, in order.
pub fn chars_of(text: &str) -> (chars: Vec<char>)
    ensures
        chars@ == text@,
{
    let mut chars: Vec<char> = Vec::new();
    for c in it: text.chars()
        invariant
            it.seq() == text@,
            chars@ == text@.take(it.index() as int),
    {
        chars.push(c);
        assert(text@.take(it.index() + 1) =~= text@.take(it.index() as int).push(c));
    }
    assert(text@.take(text@.len() as int) =~= text@);
    chars
}

/// Whether two strings hold the same characters.
pub fn same_text(left: &str, right: &str) -> (same: bool)
    ensures
        same == (left@ == right@),
{
    let left = left.to_owned();
    let right = right.to_owned();
    left == right
}

/// Whether `text` begins with `prefix`.
pub fn starts_with(text: &str, prefix: &str) -> (starts: bool)
    ensures
        starts == has_prefix(text@, prefix@),
{
    let length: usize = prefix.unicode_len();
    if text.unicode_len() < length {
        return false;
    }
    same_text(text.substring_char(0, length), prefix)
}

/// What follows `prefix` in `text`, if `text` begins with it.
pub fn strip_prefix<'a>(text: &'a str, prefix: &str) -> (rest: Option<&'a str>)
    ensures
        rest is Some <==> has_prefix(text@, prefix@),
        rest matches Some(rest) ==> rest@ == text@.skip(prefix@.len() as int),
{
    if starts_with(text, prefix) {
        let rest = text.substring_char(prefix.unicode_len(), text.unicode_len());
        assert(rest@ =~= text@.skip(prefix@.len() as int));
        Some(rest)
    } else {
        None
    }
}

/// What comes before the first occurrence of `mark` in `text`, or all of it.
pub open spec fn first_piece_of(text: Seq<char>, mark: char) -> Seq<char> {
    split_on(text, mark)[0]
}

/// What comes before the first occurrence of `mark` in `text`, or all of it.
pub fn first_piece(text: &str, mark: char) -> (piece: String)
    ensures
        piece@ == first_piece_of(text@, mark),
{
    let pieces = split(text, mark);
    proof {
        lemma_join_split(text@, mark);
        assert(pieces@.map_values(|piece: String| piece@)[0] == pieces@[0]@);
    }
    pieces[0].clone()
}

/// Whether `mark` occurs in `text`.
pub fn holds(text: &str, mark: char) -> (found: bool)
    ensures
        found == text@.contains(mark),
{
    let chars = chars_of(text);
    let mut index: usize = 0;
    while index < chars.len()
        invariant
            chars@ == text@,
            index <= chars@.len(),
            forall|i: int| 0 <= i < index ==> #[trigger] text@[i] != mark,
        decreases chars@.len() - index,
    {
        if chars[index] == mark {
            assert(text@[index as int] == mark);
            return true;
        }
        index = index + 1;
    }
    false
}

/// `text` without the marks it begins with.
pub open spec fn trim_start_of(text: Seq<char>, mark: char) -> Seq<char>
    decreases text.len(),
{
    if text.len() > 0 && text.first() == mark {
        trim_start_of(text.drop_first(), mark)
    } else {
        text
    }
}

/// `text` without the marks it ends with.
pub open spec fn trim_end_of(text: Seq<char>, mark: char) -> Seq<char>
    decreases text.len(),
{
    if text.len() > 0 && text.last() == mark {
        trim_end_of(text.drop_last(), mark)
    } else {
        text
    }
}

/// `text` without the marks it begins and ends with.
pub open spec fn trimmed(text: Seq<char>, mark: char) -> Seq<char> {
    trim_end_of(trim_start_of(text, mark), mark)
}

/// `text` without the marks it begins and ends with.
pub fn trim<'a>(text: &'a str, mark: char) -> (rest: &'a str)
    ensures
        rest@ == trimmed(text@, mark),
{
    let chars = chars_of(text);
    let mut start: usize = 0;
    let mut end: usize = chars.len();
    assert(text@.subrange(0, text@.len() as int) =~= text@);
    while start < end && chars[start] == mark
        invariant
            chars@ == text@,
            start <= end == text@.len(),
            trim_start_of(text@, mark) == trim_start_of(
                text@.subrange(start as int, end as int),
                mark,
            ),
        decreases end - start,
    {
        assert(text@.subrange(start as int, end as int).drop_first() =~= text@.subrange(
            start + 1,
            end as int,
        ));
        start = start + 1;
    }
    let ghost middle = text@.subrange(start as int, end as int);
    assert(trim_start_of(text@, mark) == middle);
    while start < end && chars[end - 1] == mark
        invariant
            chars@ == text@,
            start <= end <= text@.len(),
            trim_end_of(middle, mark) == trim_end_of(
                text@.subrange(start as int, end as int),
                mark,
            ),
        decreases end - start,
    {
        assert(text@.subrange(start as int, end as int).drop_last() =~= text@.subrange(
            start as int,
            end - 1,
        ));
        end = end - 1;
    }
    text.substring_char(start, end)
}

fn digit_text(value: u64) -> (text: &'static str)
    requires
        value < 10,
    ensures
        text@ == seq![digit(value as nat)],
{
    proof {
        reveal_strlit("0");
        reveal_strlit("1");
        reveal_strlit("2");
        reveal_strlit("3");
        reveal_strlit("4");
        reveal_strlit("5");
        reveal_strlit("6");
        reveal_strlit("7");
        reveal_strlit("8");
        reveal_strlit("9");
    }
    match value {
        0 => "0",
        1 => "1",
        2 => "2",
        3 => "3",
        4 => "4",
        5 => "5",
        6 => "6",
        7 => "7",
        8 => "8",
        _ => "9",
    }
}

/// `value` written in decimal.
pub fn decimal(value: u64) -> (text: String)
    ensures
        text@ == decimal_text(value as nat),
    decreases value,
{
    if value < 10 {
        digit_text(value).to_owned()
    } else {
        let mut text = decimal(value / 10);
        text.append(digit_text(value % 10));
        assert(text@ =~= decimal_text(value as nat));
        text
    }
}

/// The pieces of `text` between occurrences of `mark`.
pub fn split(text: &str, mark: char) -> (pieces: Vec<String>)
    ensures
        pieces@.map_values(|piece: String| piece@) == split_on(text@, mark),
{
    let chars = chars_of(text);
    let mut pieces: Vec<String> = Vec::new();
    let mut start: usize = 0;
    let mut index: usize = 0;
    let ghost view = |piece: String| piece@;
    assert(text@.subrange(0, 0) =~= Seq::empty());
    assert(split_on(text@.take(0), mark) =~= seq![text@.subrange(0, 0)]);
    while index < chars.len()
        invariant
            chars@ == text@,
            start <= index <= chars@.len(),
            view == (|piece: String| piece@),
            split_on(text@.take(index as int), mark) == pieces@.map_values(view).push(
                text@.subrange(start as int, index as int),
            ),
        decreases chars@.len() - index,
    {
        let ghost before = split_on(text@.take(index as int), mark);
        assert(text@.take(index + 1).drop_last() =~= text@.take(index as int));
        assert(text@.take(index + 1).last() == text@[index as int]);
        if chars[index] == mark {
            pieces.push(text.substring_char(start, index).to_owned());
            start = index + 1;
            assert(text@.subrange(start as int, index + 1) =~= Seq::empty());
            assert(pieces@.map_values(view) =~= before);
        } else {
            assert(text@.subrange(start as int, index + 1) =~= text@.subrange(
                start as int,
                index as int,
            ).push(text@[index as int]));
            assert(before.update(before.len() - 1, before.last().push(text@[index as int]))
                =~= pieces@.map_values(view).push(text@.subrange(start as int, index + 1)));
        }
        index = index + 1;
    }
    assert(text@.take(text@.len() as int) =~= text@);
    pieces.push(text.substring_char(start, index).to_owned());
    assert(pieces@.map_values(view) =~= split_on(text@, mark));
    pieces
}

/// Splitting at a mark splits what is on its two sides.
pub proof fn lemma_split_at(head: Seq<char>, mark: char, tail: Seq<char>)
    ensures
        split_on(head + seq![mark] + tail, mark) == split_on(head, mark) + split_on(tail, mark),
        split_on(tail, mark).len() > 0,
    decreases tail.len(),
{
    let whole = head + seq![mark] + tail;
    if tail.len() == 0 {
        assert(whole.drop_last() =~= head);
        assert(split_on(whole, mark) =~= split_on(head, mark) + split_on(tail, mark));
    } else {
        assert(whole.drop_last() =~= head + seq![mark] + tail.drop_last());
        lemma_split_at(head, mark, tail.drop_last());
        assert(split_on(whole, mark) =~= split_on(head, mark) + split_on(tail, mark));
    }
}

/// Text without a mark is one piece.
pub proof fn lemma_split_none(text: Seq<char>, mark: char)
    requires
        !text.contains(mark),
    ensures
        split_on(text, mark) == seq![text],
    decreases text.len(),
{
    if text.len() > 0 {
        assert(text[text.len() - 1] != mark);
        lemma_split_none(text.drop_last(), mark);
        assert(text.drop_last().push(text.last()) =~= text);
        assert(split_on(text, mark) =~= seq![text]);
    } else {
        assert(text =~= Seq::empty());
    }
}

/// The pieces put back together with `mark` between them.
pub open spec fn join_with(pieces: Seq<Seq<char>>, mark: char) -> Seq<char>
    decreases pieces.len(),
{
    if pieces.len() == 0 {
        Seq::empty()
    } else if pieces.len() == 1 {
        pieces[0]
    } else {
        join_with(pieces.drop_last(), mark) + seq![mark] + pieces.last()
    }
}

/// Joining the pieces of a text gives the text back.
pub proof fn lemma_join_split(text: Seq<char>, mark: char)
    ensures
        split_on(text, mark).len() > 0,
        join_with(split_on(text, mark), mark) == text,
    decreases text.len(),
{
    if text.len() > 0 {
        let before = split_on(text.drop_last(), mark);
        lemma_join_split(text.drop_last(), mark);
        let pieces = split_on(text, mark);
        if text.last() == mark {
            assert(pieces.drop_last() =~= before);
            assert(join_with(pieces, mark) =~= text);
        } else {
            assert(pieces.drop_last() =~= before.drop_last());
            assert(pieces.last() == before.last().push(text.last()));
            assert(text =~= text.drop_last().push(text.last()));
            if pieces.len() > 1 {
                assert(join_with(before, mark) == join_with(before.drop_last(), mark) + seq![mark]
                    + before.last());
            }
            assert(join_with(pieces, mark) =~= text);
        }
    }
}

/// What is left after trimming neither begins nor ends with a mark.
pub proof fn lemma_trimmed(text: Seq<char>, mark: char)
    ensures
        trimmed(text, mark).len() > 0 ==> trimmed(text, mark).first() != mark && trimmed(
            text,
            mark,
        ).last() != mark,
{
    lemma_trim_start(text, mark);
    lemma_trim_end(trim_start_of(text, mark), mark);
}

proof fn lemma_trim_start(text: Seq<char>, mark: char)
    ensures
        trim_start_of(text, mark).len() > 0 ==> trim_start_of(text, mark).first() != mark,
    decreases text.len(),
{
    if text.len() > 0 && text.first() == mark {
        lemma_trim_start(text.drop_first(), mark);
    }
}

proof fn lemma_trim_end(text: Seq<char>, mark: char)
    ensures
        trim_end_of(text, mark).len() > 0 ==> trim_end_of(text, mark).last() != mark && trim_end_of(
            text,
            mark,
        ).first() == text.first(),
    decreases text.len(),
{
    if text.len() > 0 && text.last() == mark {
        lemma_trim_end(text.drop_last(), mark);
    }
}

/// A text begins with a prefix exactly where it has every character of it, in order;
/// what is left is then what was put behind it.
pub proof fn lemma_prefix(text: Seq<char>, prefix: Seq<char>, rest: Seq<char>)
    ensures
        has_prefix(text, prefix) <==> prefix.len() <= text.len() && forall|i: int|
            0 <= i < prefix.len() ==> #[trigger] text[i] == prefix[i],
        has_prefix(text, prefix) ==> prefix + text.skip(prefix.len() as int) == text,
        has_prefix(prefix + rest, prefix),
        (prefix + rest).skip(prefix.len() as int) == rest,
{
    let head = text.subrange(0, prefix.len() as int);
    if prefix.len() <= text.len() {
        assert forall|i: int| 0 <= i < prefix.len() implies text[i] == #[trigger] head[i] by {}
        if has_prefix(text, prefix) {
            assert forall|i: int| 0 <= i < prefix.len() implies #[trigger] text[i] == prefix[i] by {
                assert(head[i] == prefix[i]);
            }
            assert(prefix + text.skip(prefix.len() as int) =~= text);
        } else if forall|i: int| 0 <= i < prefix.len() ==> #[trigger] text[i] == prefix[i] {
            assert(head =~= prefix);
        }
    }
    assert((prefix + rest).subrange(0, prefix.len() as int) =~= prefix);
    assert((prefix + rest).skip(prefix.len() as int) =~= rest);
}

/// No piece holds a mark.
pub proof fn lemma_pieces_hold_no_mark(text: Seq<char>, mark: char, index: int)
    requires
        0 <= index < split_on(text, mark).len(),
    ensures
        !split_on(text, mark)[index].contains(mark),
    decreases text.len(),
{
    if text.len() > 0 {
        let before = split_on(text.drop_last(), mark);
        lemma_join_split(text.drop_last(), mark);
        if index < before.len() {
            lemma_pieces_hold_no_mark(text.drop_last(), mark, index);
            if text.last() != mark && index == before.len() - 1 {
                let piece = split_on(text, mark)[index];
                assert(piece == before[index].push(text.last()));
                assert forall|i: int| 0 <= i < piece.len() implies piece[i] != mark by {
                    if i < before[index].len() {
                        assert(before[index][i] == piece[i]);
                    }
                }
            }
        }
    }
}

/// The first piece is what comes before the first mark: it holds no mark, the text
/// begins with it, and a mark follows it unless it is the whole text.
pub proof fn lemma_first_piece(text: Seq<char>, mark: char)
    ensures
        ({
            let piece = first_piece_of(text, mark);
            &&& !piece.contains(mark)
            &&& piece.len() <= text.len()
            &&& piece == text.take(piece.len() as int)
            &&& piece.len() < text.len() ==> text[piece.len() as int] == mark
        }),
{
    if text.contains(mark) {
        let at = lemma_first_mark(text, mark);
        let head = text.take(at);
        assert(text =~= head + seq![mark] + text.skip(at + 1));
        assert(!head.contains(mark)) by {
            assert forall|i: int| 0 <= i < head.len() implies head[i] != mark by {
                assert(text[i] != mark);
            }
        }
        lemma_split_at(head, mark, text.skip(at + 1));
        lemma_split_none(head, mark);
        assert(first_piece_of(text, mark) == head);
    } else {
        lemma_split_none(text, mark);
        assert(text.take(text.len() as int) =~= text);
    }
}

proof fn lemma_first_mark(text: Seq<char>, mark: char) -> (at: int)
    requires
        text.contains(mark),
    ensures
        0 <= at < text.len(),
        text[at] == mark,
        forall|i: int| 0 <= i < at ==> #[trigger] text[i] != mark,
    decreases text.len(),
{
    let known = choose|i: int| 0 <= i < text.len() && text[i] == mark;
    if text.take(known).contains(mark) {
        let at = lemma_first_mark(text.take(known), mark);
        assert forall|i: int| 0 <= i < at implies #[trigger] text[i] != mark by {
            assert(text.take(known)[i] == text[i]);
        }
        at
    } else {
        assert forall|i: int| 0 <= i < known implies #[trigger] text[i] != mark by {
            assert(text.take(known)[i] == text[i]);
        }
        known
    }
}

/// A number of one digit is that digit; any other is written as the number without
/// its last digit, and then that digit.
pub proof fn lemma_decimal_digits(leading: nat, last: nat)
    requires
        last < 10,
    ensures
        decimal_text(last).len() == 1,
        decimal_text(last)[0] as int == '0' as int + last,
        leading > 0 ==> decimal_text(10 * leading + last) == decimal_text(leading)
            + decimal_text(last),
{
    if leading > 0 {
        assert((10 * leading + last) / 10 == leading);
        assert((10 * leading + last) % 10 == last);
        assert(decimal_text(10 * leading + last) =~= decimal_text(leading) + decimal_text(last));
    }
}

/// Different numbers are written differently.
pub proof fn lemma_decimal_is_unambiguous(left: nat, right: nat)
    requires
        decimal_text(left) == decimal_text(right),
    ensures
        left == right,
    decreases left,
{
    let (one, other) = (decimal_text(left), decimal_text(right));
    lemma_decimal_length(left);
    lemma_decimal_length(right);
    if left >= 10 {
        assert(one.last() == digit(left % 10) && other.last() == digit(right % 10));
        assert(one.drop_last() =~= decimal_text(left / 10));
        assert(other.drop_last() =~= decimal_text(right / 10));
        lemma_decimal_is_unambiguous(left / 10, right / 10);
    } else {
        assert(one[0] == digit(left) && other[0] == digit(right));
    }
}

proof fn lemma_decimal_length(value: nat)
    ensures
        value < 10 <==> decimal_text(value).len() == 1,
        decimal_text(value).len() > 0,
    decreases value,
{
    if value >= 10 {
        lemma_decimal_length(value / 10);
    }
}

/// What is left of `text` is its middle from `start` to `end`: nothing but marks lie
/// before and behind it, and it neither begins nor ends with one.
pub open spec fn trims(text: Seq<char>, mark: char, rest: Seq<char>, start: int, end: int) -> bool {
    &&& 0 <= start <= end <= text.len()
    &&& rest == text.subrange(start, end)
    &&& forall|i: int| 0 <= i < start ==> #[trigger] text[i] == mark
    &&& forall|i: int| end <= i < text.len() ==> #[trigger] text[i] == mark
    &&& start < end ==> text[start] != mark && text[end - 1] != mark
}

/// Trimming takes away the marks at both ends, all of them and nothing else.
pub proof fn lemma_trimming_takes_only_marks(text: Seq<char>, mark: char)
    ensures
        exists|start: int, end: int| #[trigger]
            trims(text, mark, trimmed(text, mark), start, end),
{
    let middle = trim_start_of(text, mark);
    let start = lemma_trim_start_takes(text, mark);
    let end = lemma_trim_end_takes(middle, mark);
    lemma_trimmed(text, mark);
    assert(trimmed(text, mark) =~= text.subrange(start, start + end));
    assert forall|i: int| start + end <= i < text.len() implies #[trigger] text[i] == mark by {
        assert(middle[i - start] == text[i]);
    }
    if end > 0 {
        assert(trimmed(text, mark).first() == text[start]);
        assert(trimmed(text, mark).last() == text[start + end - 1]);
    }
    assert(trims(text, mark, trimmed(text, mark), start, start + end));
}

proof fn lemma_trim_start_takes(text: Seq<char>, mark: char) -> (start: int)
    ensures
        0 <= start <= text.len(),
        trim_start_of(text, mark) == text.skip(start),
        forall|i: int| 0 <= i < start ==> #[trigger] text[i] == mark,
    decreases text.len(),
{
    if text.len() > 0 && text.first() == mark {
        let start = lemma_trim_start_takes(text.drop_first(), mark);
        assert(text.drop_first().skip(start) =~= text.skip(start + 1));
        assert forall|i: int| 0 <= i < start + 1 implies #[trigger] text[i] == mark by {
            if i > 0 {
                assert(text.drop_first()[i - 1] == text[i]);
            }
        }
        start + 1
    } else {
        assert(text.skip(0) =~= text);
        0
    }
}

proof fn lemma_trim_end_takes(text: Seq<char>, mark: char) -> (end: int)
    ensures
        0 <= end <= text.len(),
        trim_end_of(text, mark) == text.take(end),
        forall|i: int| end <= i < text.len() ==> #[trigger] text[i] == mark,
    decreases text.len(),
{
    if text.len() > 0 && text.last() == mark {
        let end = lemma_trim_end_takes(text.drop_last(), mark);
        assert(text.drop_last().take(end) =~= text.take(end));
        assert forall|i: int| end <= i < text.len() implies #[trigger] text[i] == mark by {
            if i < text.len() - 1 {
                assert(text.drop_last()[i] == text[i]);
            }
        }
        end
    } else {
        assert(text.take(text.len() as int) =~= text);
        text.len() as int
    }
}

} // verus!
