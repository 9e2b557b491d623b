//! The table of best results, and the text in which it is kept: two lines,
//! the best scores on the first and the best line counts on the second,
//! each a list of numbers with single spaces between them.

use vstd::prelude::*;
use vstd::string::StringExecFns;
use vstd::std_specs::iter::IteratorSpec;
use vstd::seq_lib::{to_multiset_build, to_multiset_update};
use crate::session::Tetris;

verus! {

/// How many results a list holds before new ones must push others out.
pub const NUM_HIGHSCORES: usize = 5;

/// No number is followed by a smaller one.
pub open spec fn ascending(s: Seq<u32>) -> bool {
    forall|i: int, j: int| 0 <= i <= j < s.len() ==> s[i] <= s[j]
}

/// The lowest number of a list that has one.
pub open spec fn lowest(list: Seq<u32>) -> u32
    decreases list.len(),
{
    if list.len() <= 1 {
        list[0]
    } else if list.last() < lowest(list.drop_last()) {
        list.last()
    } else {
        lowest(list.drop_last())
    }
}

/// `value` enters the list: the list is not full yet, or its lowest
/// number is below the value.
pub open spec fn enters(list: Seq<u32>, value: u32) -> bool {
    list.len() < NUM_HIGHSCORES || lowest(list) < value
}

/// `after` is the list `before` with `value` taken in. A list that is not
/// full takes the value; a full list takes it in place of its lowest
/// number, when that is below the value; either way the list is in
/// ascending order afterwards. A full list whose lowest number is not
/// below the value stays as it is.
pub open spec fn is_update_of(after: Seq<u32>, before: Seq<u32>, value: u32) -> bool {
    if before.len() < NUM_HIGHSCORES {
        ascending(after) && after.to_multiset() == before.to_multiset().insert(value)
    } else if lowest(before) < value {
        ascending(after) && after.to_multiset() == before.to_multiset().insert(value).remove(
            lowest(before),
        )
    } else {
        after == before
    }
}

/// The lowest number of a list is one of its numbers, and none is lower.
pub proof fn lemma_lowest(list: Seq<u32>)
    requires
        list.len() > 0,
    ensures
        list.contains(lowest(list)),
        forall|i: int| 0 <= i < list.len() ==> lowest(list) <= #[trigger] list[i],
    decreases list.len(),
{
    if list.len() > 1 {
        let front = list.drop_last();
        lemma_lowest(front);
        let j = choose|j: int| 0 <= j < front.len() && front[j] == lowest(front);
        assert(list[j] == lowest(front));
        assert(list[list.len() - 1] == list.last());
        assert forall|i: int| 0 <= i < list.len() implies lowest(list) <= #[trigger] list[i] by {
            if i < front.len() {
                assert(front[i] == list[i]);
            }
        }
    } else {
        assert(list[0] == lowest(list));
    }
}

/// The character that writes the digit `d`.
pub open spec fn digit_char(d: int) -> char {
    if d == 0 {
        '0'
    } else if d == 1 {
        '1'
    } else if d == 2 {
        '2'
    } else if d == 3 {
        '3'
    } else if d == 4 {
        '4'
    } else if d == 5 {
        '5'
    } else if d == 6 {
        '6'
    } else if d == 7 {
        '7'
    } else if d == 8 {
        '8'
    } else {
        '9'
    }
}

/// The digit that a character writes, if it writes one.
pub open spec fn digit_of(c: char) -> Option<int> {
    if c == '0' {
        Some(0)
    } else if c == '1' {
        Some(1)
    } else if c == '2' {
        Some(2)
    } else if c == '3' {
        Some(3)
    } else if c == '4' {
        Some(4)
    } else if c == '5' {
        Some(5)
    } else if c == '6' {
        Some(6)
    } else if c == '7' {
        Some(7)
    } else if c == '8' {
        Some(8)
    } else if c == '9' {
        Some(9)
    } else {
        None
    }
}

/// A number written in decimal digits, without leading zeros.
pub open spec fn decimal(n: nat) -> Seq<char>
    decreases n,
{
    if n < 10 {
        seq![digit_char(n as int)]
    } else {
        decimal(n / 10).push(digit_char((n % 10) as int))
    }
}

/// The numbers written in decimal, with one space between neighbours.
pub open spec fn joined(values: Seq<u32>) -> Seq<char>
    decreases values.len(),
{
    if values.len() == 0 {
        Seq::empty()
    } else if values.len() == 1 {
        decimal(values[0] as nat)
    } else {
        joined(values.drop_last()) + seq![' '] + decimal(values.last() as nat)
    }
}

/// The text that keeps the two lists: each on a line of its own.
pub open spec fn file_text(highscores: Seq<u32>, num_lines: Seq<u32>) -> Seq<char> {
    joined(highscores) + seq!['\n'] + joined(num_lines) + seq!['\n']
}

/// Every character writes a digit.
pub open spec fn all_digits(s: Seq<char>) -> bool {
    forall|i: int| 0 <= i < s.len() ==> digit_of(#[trigger] s[i]) is Some
}

/// The number that a row of digits writes, the first digit counting most.
pub open spec fn digits_value(s: Seq<char>) -> int
    decreases s.len(),
{
    if s.len() == 0 {
        0
    } else {
        digits_value(s.drop_last()) * 10 + match digit_of(s.last()) {
            Some(d) => d,
            None => 0,
        }
    }
}

/// A token without the `+` that may stand in front of it.
pub open spec fn unsigned_part(token: Seq<char>) -> Seq<char> {
    if token.len() > 0 && token[0] == '+' {
        token.skip(1)
    } else {
        token
    }
}

/// The number that a token writes: one or more digits, with or without one
/// `+` in front, that make a number no larger than the largest `u32`.
/// Any other token writes no number.
pub open spec fn token_value(token: Seq<char>) -> Option<u32> {
    let digits = unsigned_part(token);
    if digits.len() > 0 && all_digits(digits) && digits_value(digits) <= u32::MAX {
        Some(digits_value(digits) as u32)
    } else {
        None
    }
}

/// The place of the first `c` in `s` from place `from` on; the length of
/// `s` when there is none.
pub open spec fn find(s: Seq<char>, c: char, from: int) -> int
    decreases s.len() - from,
{
    if from < 0 || from >= s.len() {
        s.len() as int
    } else if s[from] == c {
        from
    } else {
        find(s, c, from + 1)
    }
}

/// The numbers on a line from place `from` on. The line is cut at each
/// space; a piece that writes a number gives it, any other piece (an
/// empty one too) gives nothing.
pub open spec fn values_from(line: Seq<char>, from: int) -> Seq<u32>
    decreases line.len() - from,
    via values_from_decreases
{
    if from < 0 || from > line.len() {
        Seq::empty()
    } else {
        let end = find(line, ' ', from);
        let head = match token_value(line.subrange(from, end)) {
            Some(v) => seq![v],
            None => Seq::empty(),
        };
        if end >= line.len() {
            head
        } else {
            head + values_from(line, end + 1)
        }
    }
}

#[via_fn]
proof fn values_from_decreases(line: Seq<char>, from: int) {
    if 0 <= from <= line.len() {
        lemma_find(line, ' ', from);
    }
}

/// The numbers on a line.
pub open spec fn line_values(line: Seq<char>) -> Seq<u32> {
    values_from(line, 0)
}

/// The two lines of a text that has exactly two. A line ends at a line
/// feed or at the end of the text; a line feed at the very end of the
/// text starts no further line.
pub open spec fn two_lines(text: Seq<char>) -> Option<(Seq<char>, Seq<char>)> {
    let first_end = find(text, '\n', 0);
    let second_end = find(text, '\n', first_end + 1);
    if first_end + 1 < text.len() && second_end >= text.len() - 1 {
        Some((text.subrange(0, first_end), text.subrange(first_end + 1, second_end)))
    } else {
        None
    }
}

/// `find` gives a place at or after `from` where `c` stands, or the length;
/// `c` stands nowhere between `from` and that place.
pub proof fn lemma_find(s: Seq<char>, c: char, from: int)
    requires
        0 <= from <= s.len(),
    ensures
        from <= find(s, c, from) <= s.len(),
        find(s, c, from) < s.len() ==> s[find(s, c, from)] == c,
        forall|i: int| from <= i < find(s, c, from) ==> s[i] != c,
    decreases s.len() - from,
{
    if from < s.len() && s[from] != c {
        lemma_find(s, c, from + 1);
    }
}

/// Where `c` stands nowhere between `from` and `to`, the search from
/// `from` gives what the search from `to` gives.
pub proof fn lemma_find_skips(s: Seq<char>, c: char, from: int, to: int)
    requires
        0 <= from <= to <= s.len(),
        forall|i: int| from <= i < to ==> s[i] != c,
    ensures
        find(s, c, from) == find(s, c, to),
    decreases to - from,
{
    if from < to {
        lemma_find_skips(s, c, from + 1, to);
    }
}

/// The digits of the front of a row write no more than the whole row.
pub proof fn lemma_digits_value_grows(s: Seq<char>, k: int)
    requires
        0 <= k <= s.len(),
    ensures
        0 <= digits_value(s.take(k)) <= digits_value(s),
    decreases s.len() - k,
{
    lemma_digits_value_nonnegative(s.take(k));
    if k < s.len() {
        lemma_digits_value_grows(s, k + 1);
        assert(s.take(k + 1).drop_last() =~= s.take(k));
    } else {
        assert(s.take(k) =~= s);
    }
}

/// A row of characters writes no negative number.
pub proof fn lemma_digits_value_nonnegative(s: Seq<char>)
    ensures
        0 <= digits_value(s),
    decreases s.len(),
{
    if s.len() > 0 {
        lemma_digits_value_nonnegative(s.drop_last());
    }
}

/// A number in decimal is one or more digits, and the digits write the
/// number.
pub proof fn lemma_decimal(n: nat)
    ensures
        decimal(n).len() > 0,
        all_digits(decimal(n)),
        digits_value(decimal(n)) == n,
    decreases n,
{
    let s = decimal(n);
    if n >= 10 {
        lemma_decimal(n / 10);
        let d = decimal(n / 10);
        assert(s.drop_last() =~= d);
        assert(s.last() == digit_char((n % 10) as int));
        assert forall|i: int| 0 <= i < s.len() implies digit_of(#[trigger] s[i]) is Some by {
            if i < d.len() {
                assert(s[i] == d[i]);
            }
        }
    } else {
        assert(s.drop_last() =~= Seq::<char>::empty());
        assert(digits_value(s.drop_last()) == 0);
    }
}

/// A number that fits in 32 bits, written in decimal, is a token that
/// writes this number.
pub proof fn lemma_decimal_token(n: u32)
    ensures
        token_value(decimal(n as nat)) == Some(n),
{
    lemma_decimal(n as nat);
    assert(digit_of(decimal(n as nat)[0]) is Some);
}

/// Numbers joined by spaces are the first number, and after a space the
/// others joined.
pub proof fn lemma_joined_front(values: Seq<u32>)
    requires
        values.len() >= 2,
    ensures
        joined(values) == decimal(values[0] as nat) + seq![' '] + joined(values.skip(1)),
    decreases values.len(),
{
    let front = values.drop_last();
    let rest = values.skip(1);
    if values.len() == 2 {
        assert(front.len() == 1 && front[0] == values[0]);
        assert(rest.len() == 1 && rest[0] == values[1]);
        assert(joined(front) == decimal(values[0] as nat));
        assert(joined(rest) == decimal(values[1] as nat));
        assert(values.last() == values[1]);
    } else {
        lemma_joined_front(front);
        assert(front.skip(1) =~= rest.drop_last());
        assert(rest.last() == values.last());
        assert(joined(values) =~= decimal(values[0] as nat) + seq![' '] + joined(rest));
    }
}

/// Numbers joined by spaces hold digits and spaces only.
pub proof fn lemma_joined_chars(values: Seq<u32>)
    ensures
        forall|i: int|
            0 <= i < joined(values).len() ==> (#[trigger] joined(values)[i]) == ' ' || digit_of(
                joined(values)[i],
            ) is Some,
    decreases values.len(),
{
    let line = joined(values);
    if values.len() == 1 {
        lemma_decimal(values[0] as nat);
    } else if values.len() >= 2 {
        let front = joined(values.drop_last());
        let last = decimal(values.last() as nat);
        lemma_joined_chars(values.drop_last());
        lemma_decimal(values.last() as nat);
        assert forall|i: int| 0 <= i < line.len() implies (#[trigger] line[i]) == ' ' || digit_of(
            line[i],
        ) is Some by {
            if i < front.len() {
                assert(line[i] == front[i]);
            } else if i > front.len() {
                assert(line[i] == last[i - front.len() - 1]);
            }
        }
    }
}

/// A search in the part of a text from `from` on gives what the search in
/// the whole text gives, counted from `from`.
pub proof fn lemma_find_shift(s: Seq<char>, c: char, from: int, k: int)
    requires
        0 <= from,
        0 <= k,
        from + k <= s.len(),
    ensures
        find(s, c, from + k) == from + find(s.skip(from), c, k),
    decreases s.len() - from - k,
{
    if from + k < s.len() {
        assert(s.skip(from)[k] == s[from + k]);
        if s[from + k] != c {
            lemma_find_shift(s, c, from, k + 1);
        }
    }
}

/// The numbers of the part of a line from `from` on are those of the line
/// from there on.
pub proof fn lemma_values_shift(line: Seq<char>, from: int, k: int)
    requires
        0 <= from,
        0 <= k,
        from + k <= line.len(),
    ensures
        values_from(line, from + k) == values_from(line.skip(from), k),
    decreases line.len() - from - k,
{
    let part = line.skip(from);
    lemma_find_shift(line, ' ', from, k);
    lemma_find(line, ' ', from + k);
    let end = find(line, ' ', from + k);
    assert(line.subrange(from + k, end) =~= part.subrange(k, end - from));
    if end < line.len() {
        lemma_values_shift(line, from, end - from + 1);
    }
}

/// A list of numbers joined by spaces is a line that gives the list back.
pub proof fn lemma_joined_line_values(values: Seq<u32>)
    ensures
        line_values(joined(values)) == values,
    decreases values.len(),
{
    let line = joined(values);
    if values.len() == 0 {
        assert(line.subrange(0, 0) =~= Seq::<char>::empty());
        assert(line_values(line) =~= values);
    } else {
        let first = decimal(values[0] as nat);
        let d = first.len() as int;
        lemma_decimal(values[0] as nat);
        lemma_decimal_token(values[0]);
        if values.len() >= 2 {
            lemma_joined_front(values);
        }
        assert(line.subrange(0, d) =~= first);
        assert forall|i: int| 0 <= i < d implies line[i] != ' ' by {
            assert(line[i] == first[i]);
        }
        lemma_find_skips(line, ' ', 0, d);
        if values.len() == 1 {
            assert(line_values(line) =~= values);
        } else {
            let rest = values.skip(1);
            assert(line[d] == ' ');
            assert(find(line, ' ', 0) == d);
            lemma_values_shift(line, d + 1, 0);
            assert(line.skip(d + 1) =~= joined(rest));
            lemma_joined_line_values(rest);
            assert(line_values(line) =~= seq![values[0]] + rest);
            assert(seq![values[0]] + rest =~= values);
        }
    }
}

/// What is written is read back: the text that keeps two lists has
/// exactly two lines, and these give the two lists again.
pub proof fn lemma_saved_lists_load(highscores: Seq<u32>, num_lines: Seq<u32>)
    ensures
        two_lines(file_text(highscores, num_lines)) == Some(
            (joined(highscores), joined(num_lines)),
        ),
        line_values(joined(highscores)) == highscores,
        line_values(joined(num_lines)) == num_lines,
{
    let first = joined(highscores);
    let second = joined(num_lines);
    let text = file_text(highscores, num_lines);
    let a = first.len() as int;
    let b = a + 1 + second.len();
    lemma_joined_chars(highscores);
    lemma_joined_chars(num_lines);
    lemma_joined_line_values(highscores);
    lemma_joined_line_values(num_lines);
    assert(text.len() == b + 1);
    assert forall|i: int| 0 <= i < a implies text[i] != '\n' by {
        assert(text[i] == first[i]);
    }
    assert forall|i: int| a + 1 <= i < b implies text[i] != '\n' by {
        assert(text[i] == second[i - a - 1]);
    }
    assert(text[a] == '\n' && text[b] == '\n');
    lemma_find_skips(text, '\n', 0, a);
    lemma_find_skips(text, '\n', a + 1, b);
    assert(find(text, '\n', 0) == a);
    assert(find(text, '\n', a + 1) == b);
    assert(text.subrange(0, a) =~= first);
    assert(text.subrange(a + 1, b) =~= second);
}

/// `slice::sort` of std on the numbers of a vector: it puts them in
/// ascending order. The vector holds the same numbers after it, each as
/// often as before.
#[verifier::external_body]
fn sort_ascending(v: &mut Vec<u32>)
    ensures
        ascending(final(v)@),
        final(v)@.to_multiset() == old(v)@.to_multiset(),
{
    v.sort();
}

/// Takes `value` into a list of best results and says whether it went in.
/// A list of fewer than five takes every value. A list of five or more
/// takes the value in place of its lowest number, if that is lower. A
/// list that has taken the value is in ascending order.
pub fn update_vec(v: &mut Vec<u32>, value: u32) -> (entered: bool)
    ensures
        entered == enters(old(v)@, value),
        is_update_of(final(v)@, old(v)@, value),
{
    if v.len() < NUM_HIGHSCORES {
        v.push(value);
        proof {
            to_multiset_build(old(v)@, value);
        }
        sort_ascending(v);
        return true;
    }
    let mut low: usize = 0;
    let mut i: usize = 1;
    assert(v@.take(1).len() == 1 && v@.take(1)[0] == v@[0]);
    while i < v.len()
        invariant
            0 <= low < i <= v@.len(),
            v@ == old(v)@,
            v@.len() >= NUM_HIGHSCORES,
            v@[low as int] == lowest(v@.take(i as int)),
        decreases v@.len() - i,
    {
        let ghost front = v@.take(i + 1);
        assert(front.drop_last() =~= v@.take(i as int));
        assert(front.last() == v@[i as int]);
        if v[i] < v[low] {
            low = i;
        }
        i += 1;
    }
    assert(v@.take(i as int) =~= v@);
    if value > v[low] {
        proof {
            to_multiset_update(v@, low as int, value);
        }
        v[low] = value;
        assert(v@ =~= old(v)@.update(low as int, value));
        sort_ascending(v);
        true
    } else {
        false
    }
}

/// Takes the score and the line count of a finished game into the two
/// lists of best results, and says for each whether it went in.
pub fn record_game(tetris: &Tetris, highscores: &mut Vec<u32>, num_lines: &mut Vec<u32>) -> (entered:
    (bool, bool))
    ensures
        entered.0 == enters(old(highscores)@, tetris.score),
        is_update_of(final(highscores)@, old(highscores)@, tetris.score),
        entered.1 == enters(old(num_lines)@, tetris.num_lines),
        is_update_of(final(num_lines)@, old(num_lines)@, tetris.num_lines),
{
    let highest_score = update_vec(highscores, tetris.score);
    let highest_lines = update_vec(num_lines, tetris.num_lines);
    (highest_score, highest_lines)
}

/// The text of one digit.
fn digit_text(d: u32) -> (s: &'static str)
    requires
        d < 10,
    ensures
        s@ == seq![digit_char(d as int)],
{
    proof {
        reveal_strlit("0");
        reveal_strlit("1");
        reveal_strlit("2");
        reveal_strlit("3");
        reveal_strlit("4");
        reveal_strlit("5");
        reveal_strlit("6");
        reveal_strlit("7");
        reveal_strlit("8");
        reveal_strlit("9");
    }
    let s = if d == 0 {
        "0"
    } else if d == 1 {
        "1"
    } else if d == 2 {
        "2"
    } else if d == 3 {
        "3"
    } else if d == 4 {
        "4"
    } else if d == 5 {
        "5"
    } else if d == 6 {
        "6"
    } else if d == 7 {
        "7"
    } else if d == 8 {
        "8"
    } else {
        "9"
    };
    assert(s@ =~= seq![digit_char(d as int)]);
    s
}

/// Writes `n` in decimal at the end of `out`.
fn push_decimal(out: &mut String, n: u32)
    ensures
        final(out)@ == old(out)@ + decimal(n as nat),
    decreases n,
{
    if n >= 10 {
        push_decimal(out, n / 10);
    }
    out.append(digit_text(n % 10));
    assert(out@ =~= old(out)@ + decimal(n as nat));
}

/// The numbers in decimal, with one space between neighbours.
pub fn slice_to_string(slice: &[u32]) -> (text: String)
    ensures
        text@ == joined(slice@),
{
    let mut text = String::new();
    let mut i: usize = 0;
    while i < slice.len()
        invariant
            0 <= i <= slice@.len(),
            text@ == joined(slice@.take(i as int)),
        decreases slice@.len() - i,
    {
        let ghost before = text@;
        if i > 0 {
            proof {
                reveal_strlit(" ");
            }
            text.append(" ");
            assert(text@ =~= before + seq![' ']);
        }
        push_decimal(&mut text, slice[i]);
        proof {
            let front = slice@.take(i + 1);
            assert(front.drop_last() =~= slice@.take(i as int));
            assert(front.last() == slice@[i as int]);
            assert(text@ =~= joined(front));
        }
        i += 1;
    }
    assert(slice@.take(i as int) =~= slice@);
    text
}

/// The text that keeps the two lists of best results: the scores on the
/// first line, the line counts on the second.
pub fn save_highscores_and_lines(highscores: &[u32], num_lines_sent: &[u32]) -> (content: String)
    ensures
        content@ == file_text(highscores@, num_lines_sent@),
{
    let mut content = slice_to_string(highscores);
    let lines = slice_to_string(num_lines_sent);
    proof {
        reveal_strlit("\n");
    }
    content.append("\n");
    content.append(lines.as_str());
    content.append("\n");
    assert(content@ =~= file_text(highscores@, num_lines_sent@));
    content
}

/// The characters of a text.
fn chars_of(s: &str) -> (v: Vec<char>)
    ensures
        v@ == s@,
{
    let mut v: Vec<char> = Vec::new();
    let mut it = s.chars();
    loop
        invariant
            it.obeys_prophetic_iter_laws(),
            it.decrease() is Some,
            v@ + it.remaining() == s@,
        decreases it.decrease()->0,
    {
        let ghost before = it;
        match it.next() {
            Some(c) => {
                assert(before.remaining().len() > 0);
                v.push(c);
                assert(v@ + it.remaining() =~= s@);
            },
            None => {
                assert(it.remaining().len() == 0);
                assert(v@ =~= s@);
                return v;
            },
        }
    }
}

/// The digit that a character writes, if it writes one.
fn digit(c: char) -> (d: Option<u8>)
    ensures
        match d {
            Some(v) => digit_of(c) == Some(v as int),
            None => digit_of(c) is None,
        },
{
    if c == '0' {
        Some(0)
    } else if c == '1' {
        Some(1)
    } else if c == '2' {
        Some(2)
    } else if c == '3' {
        Some(3)
    } else if c == '4' {
        Some(4)
    } else if c == '5' {
        Some(5)
    } else if c == '6' {
        Some(6)
    } else if c == '7' {
        Some(7)
    } else if c == '8' {
        Some(8)
    } else if c == '9' {
        Some(9)
    } else {
        None
    }
}

/// The number that the characters from `from` up to `to` write.
fn parse_token(chars: &Vec<char>, from: usize, to: usize) -> (value: Option<u32>)
    requires
        from <= to <= chars@.len(),
    ensures
        value == token_value(chars@.subrange(from as int, to as int)),
{
    let ghost token = chars@.subrange(from as int, to as int);
    let mut k: usize = from;
    if k < to && chars[k] == '+' {
        k += 1;
    }
    let first = k;
    let ghost digits = chars@.subrange(first as int, to as int);
    assert(digits =~= unsigned_part(token));
    if k == to {
        return None;
    }
    let mut acc: u64 = 0;
    while k < to
        invariant
            from <= first <= k <= to <= chars@.len(),
            digits == chars@.subrange(first as int, to as int),
            digits == unsigned_part(chars@.subrange(from as int, to as int)),
            all_digits(digits.take(k - first)),
            acc == digits_value(digits.take(k - first)),
            acc <= u32::MAX,
        decreases to - k,
    {
        let ghost front = digits.take(k - first + 1);
        assert(front.drop_last() =~= digits.take(k - first));
        assert(front.last() == chars@[k as int]);
        match digit(chars[k]) {
            None => {
                assert(digit_of(digits[k - first]) is None);
                return None;
            },
            Some(d) => {
                let next: u64 = acc * 10 + d as u64;
                assert(next == digits_value(front));
                if next > u32::MAX as u64 {
                    proof {
                        lemma_digits_value_grows(digits, k - first + 1);
                    }
                    return None;
                }
                assert forall|i: int| 0 <= i < front.len() implies digit_of(
                    #[trigger] front[i],
                ) is Some by {
                    if i < k - first {
                        assert(front[i] == digits.take(k - first)[i]);
                    }
                }
                acc = next;
            },
        }
        k += 1;
    }
    assert(digits.take(to - first) =~= digits);
    Some(acc as u32)
}

/// The numbers on the line that the characters from `from` up to `to` make.
fn values_in(chars: &Vec<char>, from: usize, to: usize) -> (values: Vec<u32>)
    requires
        from <= to <= chars@.len(),
    ensures
        values@ == line_values(chars@.subrange(from as int, to as int)),
{
    let ghost line = chars@.subrange(from as int, to as int);
    let mut values: Vec<u32> = Vec::new();
    let mut start: usize = from;
    let mut i: usize = from;
    loop
        invariant
            from <= start <= i <= to <= chars@.len(),
            line == chars@.subrange(from as int, to as int),
            forall|j: int| start - from <= j < i - from ==> line[j] != ' ',
            line_values(line) == values@ + values_from(line, start - from),
        decreases to - i,
    {
        if i == to || chars[i] == ' ' {
            proof {
                lemma_find_skips(line, ' ', start - from, i - from);
                assert(find(line, ' ', start - from) == i - from);
                assert(line.subrange(start - from, i - from) =~= chars@.subrange(
                    start as int,
                    i as int,
                ));
            }
            let ghost before = values@;
            match parse_token(chars, start, i) {
                Some(v) => {
                    values.push(v);
                    assert(values@ =~= before + seq![v]);
                },
                None => {
                    assert(values@ =~= before + Seq::<u32>::empty());
                },
            }
            if i == to {
                assert(line_values(line) =~= values@);
                return values;
            }
            assert(line_values(line) =~= values@ + values_from(line, i + 1 - from));
            start = i + 1;
        }
        i += 1;
    }
}

/// The numbers on a line: the line is cut at each space, and each piece
/// that writes a number gives it.
pub fn line_to_slice(line: &str) -> (values: Vec<u32>)
    ensures
        values@ == line_values(line@),
{
    let chars = chars_of(line);
    assert(chars@.subrange(0, chars@.len() as int) =~= line@);
    values_in(&chars, 0, chars.len())
}

/// The place of the first `c` among the characters from `from` on.
fn find_char(chars: &Vec<char>, c: char, from: usize) -> (at: usize)
    requires
        from <= chars@.len(),
    ensures
        at == find(chars@, c, from as int),
{
    let mut i: usize = from;
    while i < chars.len() && chars[i] != c
        invariant
            from <= i <= chars@.len(),
            forall|j: int| from <= j < i ==> chars@[j] != c,
        decreases chars@.len() - i,
    {
        i += 1;
    }
    proof {
        lemma_find_skips(chars@, c, from as int, i as int);
    }
    i
}

/// Reads the two lists of best results from the text that keeps them:
/// the scores from the first line, the line counts from the second. A
/// text that has not exactly two lines gives nothing.
pub fn load_highscores_and_lines(content: &str) -> (lists: Option<(Vec<u32>, Vec<u32>)>)
    ensures
        match two_lines(content@) {
            Some((first, second)) => lists matches Some((highscores, num_lines))
                && highscores@ == line_values(first) && num_lines@ == line_values(second),
            None => lists is None,
        },
{
    let chars = chars_of(content);
    let n = chars.len();
    let first_end = find_char(&chars, '\n', 0);
    if first_end >= n || first_end + 1 >= n {
        return None;
    }
    let second_end = find_char(&chars, '\n', first_end + 1);
    proof {
        lemma_find(chars@, '\n', first_end + 1);
    }
    if second_end < n - 1 {
        return None;
    }
    let highscores = values_in(&chars, 0, first_end);
    let num_lines = values_in(&chars, first_end + 1, second_end);
    Some((highscores, num_lines))
}

} // verus!
