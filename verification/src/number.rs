//! Whole numbers in decimal: writing them and reading them back.

use vstd::prelude::*;
use crate::text;

verus! {

broadcast use vstd::string::group_string_axioms;

/// The character of a single digit.
pub open spec fn digit(value: nat) -> char {
    (48 + value) as char
}

pub open spec fn is_digit(c: char) -> bool {
    '0' <= c <= '9'
}

/// A number in decimal, without leading zeros.
pub open spec fn written(value: nat) -> Seq<char>
    decreases value,
{
    if value < 10 {
        seq![digit(value)]
    } else {
        written(value / 10).push(digit(value % 10))
    }
}

pub open spec fn all_digits(digits: Seq<char>) -> bool {
    forall|i: int| 0 <= i < digits.len() ==> is_digit(#[trigger] digits[i])
}

/// What a run of digits is worth.
pub open spec fn worth(digits: Seq<char>) -> nat
    decreases digits.len(),
{
    if digits.len() == 0 {
        0
    } else {
        (worth(digits.drop_last()) * 10 + (digits.last() as u32 - 48)) as nat
    }
}

/// The digits of an unsigned number behind the plus sign it may have.
pub open spec fn unsigned_digits(written: Seq<char>) -> Seq<char> {
    if written.len() > 0 && written[0] == '+' {
        written.drop_first()
    } else {
        written
    }
}

/// What an unsigned number reads as: at least one digit, digits only, with or
/// without a plus sign in front.
pub open spec fn read_unsigned(written: Seq<char>) -> Option<nat> {
    let digits = unsigned_digits(written);
    if digits.len() > 0 && all_digits(digits) {
        Some(worth(digits))
    } else {
        None
    }
}

/// The reading, unless it is past `limit`.
pub open spec fn read_up_to(written: Seq<char>, limit: nat) -> Option<nat> {
    match read_unsigned(written) {
        Some(value) => if value <= limit { Some(value) } else { None },
        None => None,
    }
}

fn digit_text(value: u8) -> (digit_text: &'static str)
    requires
        value < 10,
    ensures
        digit_text@ == seq![digit(value as nat)],
{
    proof {
        reveal_strlit("0");
        reveal_strlit("1");
        reveal_strlit("2");
        reveal_strlit("3");
        reveal_strlit("4");
        reveal_strlit("5");
        reveal_strlit("6");
        reveal_strlit("7");
        reveal_strlit("8");
        reveal_strlit("9");
    }
    match value {
        0 => "0",
        1 => "1",
        2 => "2",
        3 => "3",
        4 => "4",
        5 => "5",
        6 => "6",
        7 => "7",
        8 => "8",
        _ => "9",
    }
}

/// A number in decimal.
pub fn decimal(value: u128) -> (text: String)
    ensures
        text@ == written(value as nat),
    decreases value,
{
    let last: &str = digit_text((value % 10) as u8);
    if value < 10 {
        last.to_owned()
    } else {
        let mut text: String = decimal(value / 10);
        text.append(last);
        assert(text@ =~= written(value as nat));
        text
    }
}

proof fn worth_only_grows(digits: Seq<char>, cut: int)
    requires
        all_digits(digits),
        0 <= cut <= digits.len(),
    ensures
        worth(digits.take(cut)) <= worth(digits),
    decreases digits.len() - cut,
{
    if cut == digits.len() {
        assert(digits.take(cut) =~= digits);
    } else {
        worth_only_grows(digits, cut + 1);
        assert(digits.take(cut + 1).drop_last() =~= digits.take(cut));
        assert(is_digit(digits[cut]));
    }
}

/// Reads an unsigned number no larger than `limit`; `None` when the text is not
/// one or the number is larger.
pub fn parse_up_to(written: &str, limit: u64) -> (value: Option<u64>)
    ensures
        match value {
            Some(v) => read_up_to(written@, limit as nat) == Some(v as nat),
            None => read_up_to(written@, limit as nat) is None,
        },
{
    let all: Vec<char> = text::chars(written);
    let from: usize = if all.len() > 0 && all[0] == '+' { 1 } else { 0 };
    let ghost digits = unsigned_digits(written@);
    assert(digits =~= written@.skip(from as int));
    if from == all.len() {
        return None;
    }
    let mut value: u64 = 0;
    let mut at: usize = from;
    assert(digits.take(0) =~= Seq::<char>::empty());
    while at < all.len()
        invariant
            all@ == written@,
            from <= at <= all.len(),
            digits == unsigned_digits(written@),
            digits == written@.skip(from as int),
            digits.len() > 0,
            value <= limit,
            value == worth(digits.take(at - from)),
            all_digits(digits.take(at - from)),
        decreases all.len() - at,
    {
        let c: char = all[at];
        assert(digits[at - from] == c);
        if !('0' <= c && c <= '9') {
            assert(!is_digit(digits[at - from]));
            return None;
        }
        let unit: u64 = c as u64 - 48;
        let wider: u128 = value as u128 * 10 + unit as u128;
        assert(digits.take(at + 1 - from).drop_last() =~= digits.take(at - from));
        assert(wider == worth(digits.take(at + 1 - from)));
        if wider > limit as u128 {
            proof {
                if all_digits(digits) {
                    worth_only_grows(digits, at + 1 - from);
                }
            }
            return None;
        }
        assert forall|i: int| 0 <= i < at + 1 - from implies is_digit(#[trigger] digits.take(at + 1 - from)[i]) by {
            if i < at - from {
                assert(digits.take(at - from)[i] == digits[i]);
            }
        }
        value = wider as u64;
        at += 1;
    }
    assert(digits.take(digits.len() as int) =~= digits);
    Some(value)
}

/// What is written is digits, at least one.
pub proof fn written_is_digits(value: nat)
    ensures
        written(value).len() > 0,
        all_digits(written(value)),
        worth(written(value)) == value,
    decreases value,
{
    if value < 10 {
        assert(written(value).drop_last() =~= Seq::<char>::empty());
        assert(worth(written(value).drop_last()) == 0);
    } else {
        written_is_digits(value / 10);
        assert(written(value).drop_last() =~= written(value / 10));
        assert forall|i: int| 0 <= i < written(value).len() implies is_digit(#[trigger] written(value)[i]) by {
            if i < written(value / 10).len() {
                assert(written(value)[i] == written(value / 10)[i]);
            }
        }
    }
}

/// What is written reads back as what it was.
pub proof fn written_reads_back(value: nat)
    ensures
        read_unsigned(written(value)) == Some(value),
{
    written_is_digits(value);
    assert(is_digit(written(value)[0]));
}


// -- Numbers with a fraction --
//
// They are carried as they are written; what is decided here is only whether a
// text is such a number.

/// Where one of `marks` stands first; the length when none does.
pub open spec fn first_of(text: Seq<char>, marks: Seq<char>) -> int
    decreases text.len(),
{
    if text.len() == 0 {
        0
    } else if marks.contains(text[0]) {
        0
    } else {
        1 + first_of(text.drop_first(), marks)
    }
}

pub open spec fn without_sign(text: Seq<char>) -> Seq<char> {
    if text.len() > 0 && (text[0] == '+' || text[0] == '-') { text.drop_first() } else { text }
}

/// Digits with at most one point among them, at least one digit.
pub open spec fn is_mantissa(text: Seq<char>) -> bool {
    let point = first_of(text, seq!['.']);
    if point == text.len() {
        text.len() > 0 && all_digits(text)
    } else {
        text.len() > 1 && all_digits(text.take(point)) && all_digits(text.skip(point + 1))
    }
}

/// A mantissa, with or without an exponent behind it.
pub open spec fn is_scientific(text: Seq<char>) -> bool {
    let mark = first_of(text, seq!['e', 'E']);
    let power = without_sign(text.skip(mark + 1));
    is_mantissa(text.take(mark)) && (mark == text.len() || (power.len() > 0 && all_digits(power)))
}

/// The letter in lower case, of the Latin letters.
pub open spec fn small(c: char) -> char {
    if 'A' <= c <= 'Z' { (c as u32 + 32) as char } else { c }
}

/// The word, whatever the case of its letters.
pub open spec fn is_word(text: Seq<char>, word: Seq<char>) -> bool {
    text.len() == word.len() && forall|i: int| 0 <= i < text.len() ==> small(#[trigger] text[i]) == word[i]
}

/// A number with or without a fraction, an exponent and a sign, or one of the
/// words for infinity and for no number.
pub open spec fn is_number(text: Seq<char>) -> bool {
    let body = without_sign(text);
    ||| is_word(body, "inf"@)
    ||| is_word(body, "infinity"@)
    ||| is_word(body, "nan"@)
    ||| is_scientific(body)
}

fn find_first(all: &Vec<char>, from: usize, to: usize, marks: &[char]) -> (at: usize)
    requires
        from <= to <= all.len(),
    ensures
        from <= at <= to,
        at - from == first_of(all@.subrange(from as int, to as int), marks@),
{
    let ghost whole = all@.subrange(from as int, to as int);
    let mut at: usize = from;
    assert(whole.skip(0) =~= whole);
    while at < to
        invariant
            from <= at <= to <= all.len(),
            whole == all@.subrange(from as int, to as int),
            (at - from) + first_of(whole.skip(at - from), marks@) == first_of(whole, marks@),
        decreases to - at,
    {
        assert(whole.skip(at - from)[0] == all@[at as int]);
        if text::is_one_of(all[at], marks) {
            return at;
        }
        assert(whole.skip(at - from).drop_first() =~= whole.skip(at + 1 - from));
        at += 1;
    }
    at
}

fn only_digits(all: &Vec<char>, from: usize, to: usize) -> (yes: bool)
    requires
        from <= to <= all.len(),
    ensures
        yes == all_digits(all@.subrange(from as int, to as int)),
{
    let ghost whole = all@.subrange(from as int, to as int);
    let mut at: usize = from;
    while at < to
        invariant
            from <= at <= to <= all.len(),
            whole == all@.subrange(from as int, to as int),
            forall|i: int| 0 <= i < at - from ==> is_digit(#[trigger] whole[i]),
        decreases to - at,
    {
        assert(whole[at - from] == all@[at as int]);
        if !('0' <= all[at] && all[at] <= '9') {
            return false;
        }
        at += 1;
    }
    true
}

fn is_spelled(all: &Vec<char>, from: usize, word: &str) -> (yes: bool)
    requires
        from <= all.len(),
    ensures
        yes == is_word(all@.skip(from as int), word@),
{
    let letters: Vec<char> = text::chars(word);
    let ghost body = all@.skip(from as int);
    if all.len() - from != letters.len() {
        return false;
    }
    let mut i: usize = 0;
    while i < letters.len()
        invariant
            i <= letters.len(),
            letters@ == word@,
            body == all@.skip(from as int),
            body.len() == letters.len(),
            from + letters.len() == all.len(),
            forall|j: int| 0 <= j < i ==> small(#[trigger] body[j]) == word@[j],
        decreases letters.len() - i,
    {
        let c: char = all[from + i];
        assert(body[i as int] == c);
        let lower: char = if 'A' <= c && c <= 'Z' { (c as u8 + 32) as char } else { c };
        if lower != letters[i] {
            return false;
        }
        i += 1;
    }
    true
}

/// Whether a text is a number with or without a fraction.
pub fn reads_as_number(written: &str) -> (yes: bool)
    ensures
        yes == is_number(written@),
{
    let all: Vec<char> = text::chars(written);
    let signed: bool = all.len() > 0 && (all[0] == '+' || all[0] == '-');
    let from: usize = if signed { 1 } else { 0 };
    let ghost body = without_sign(written@);
    assert(body =~= all@.skip(from as int));
    if is_spelled(&all, from, "inf") || is_spelled(&all, from, "infinity") || is_spelled(&all, from, "nan") {
        return true;
    }
    let exponents: [char; 2] = ['e', 'E'];
    let points: [char; 1] = ['.'];
    assert(exponents@ =~= seq!['e', 'E']);
    assert(points@ =~= seq!['.']);
    let mark: usize = find_first(&all, from, all.len(), &exponents);
    assert(all@.subrange(from as int, all@.len() as int) =~= body);
    let point: usize = find_first(&all, from, mark, &points);
    assert(all@.subrange(from as int, mark as int) =~= body.take(mark - from));
    assert(all@.subrange(from as int, point as int) =~= body.take(mark - from).take(point - from));
    let mantissa: bool = if point == mark {
        assert(body.take(mark - from).take(point - from) =~= body.take(mark - from));
        mark > from && only_digits(&all, from, mark)
    } else {
        assert(all@.subrange(point + 1, mark as int) =~= body.take(mark - from).skip(point + 1 - from));
        mark - from > 1 && only_digits(&all, from, point) && only_digits(&all, point + 1, mark)
    };
    if !mantissa || mark == all.len() {
        return mantissa;
    }
    let ghost rest = body.skip(mark + 1 - from);
    assert(rest =~= all@.subrange(mark + 1, all@.len() as int));
    let start: usize = if mark + 1 < all.len() && (all[mark + 1] == '+' || all[mark + 1] == '-') {
        mark + 2
    } else {
        mark + 1
    };
    assert(without_sign(rest) =~= all@.subrange(start as int, all@.len() as int));
    start < all.len() && only_digits(&all, start, all.len())
}

/// A number that is written is read up to its limit, the limit with it, with or without a
/// plus in front; behind a minus nothing is read.
pub proof fn a_number_is_read_up_to_its_limit(value: nat, limit: nat)
    ensures
        value <= limit ==> read_up_to(written(value), limit) == Some(value),
        value > limit ==> read_up_to(written(value), limit) is None,
        value <= limit ==> read_up_to(seq!['+'] + written(value), limit) == Some(value),
        read_up_to(seq!['-'] + written(value), limit) is None,
        read_up_to(Seq::empty(), limit) is None,
{
    written_reads_back(value);
    written_is_digits(value);
    let plain = written(value);
    assert(is_digit(plain[0]));
    assert((seq!['+'] + plain).drop_first() =~= plain);
    assert(unsigned_digits(plain) == plain);
    let below = seq!['-'] + plain;
    assert(below[0] == '-');
    assert(!is_digit(below[0]));
}

proof fn no_mark_among_digits(text: Seq<char>, marks: Seq<char>)
    requires
        forall|i: int| 0 <= i < text.len() ==> !marks.contains(#[trigger] text[i]),
    ensures
        first_of(text, marks) == text.len(),
    decreases text.len(),
{
    if text.len() > 0 {
        assert(!marks.contains(text[0]));
        assert forall|i: int| 0 <= i < text.drop_first().len() implies !marks.contains(#[trigger] text.drop_first()[i]) by {
            assert(text.drop_first()[i] == text[i + 1]);
        }
        no_mark_among_digits(text.drop_first(), marks);
    }
}

proof fn a_mark_behind_digits(front: Seq<char>, mark: char, back: Seq<char>, marks: Seq<char>)
    requires
        forall|i: int| 0 <= i < front.len() ==> !marks.contains(#[trigger] front[i]),
        marks.contains(mark),
    ensures
        first_of(front + seq![mark] + back, marks) == front.len(),
    decreases front.len(),
{
    let text = front + seq![mark] + back;
    if front.len() == 0 {
        assert(text[0] == mark);
    } else {
        assert(text[0] == front[0]);
        assert(!marks.contains(front[0]));
        assert(text.drop_first() =~= front.drop_first() + seq![mark] + back);
        assert forall|i: int| 0 <= i < front.drop_first().len() implies !marks.contains(#[trigger] front.drop_first()[i]) by {
            assert(front.drop_first()[i] == front[i + 1]);
        }
        a_mark_behind_digits(front.drop_first(), mark, back, marks);
    }
}

/// Digits are a number, alone, behind a minus and with a fraction; nothing at all is none,
/// nor is a lone sign.
pub proof fn what_is_a_number(whole: Seq<char>, part: Seq<char>)
    requires
        all_digits(whole),
        all_digits(part),
    ensures
        whole.len() > 0 ==> is_number(whole) && is_number(seq!['-'] + whole),
        whole.len() + part.len() > 0 ==> is_number(whole + seq!['.'] + part),
        whole.len() > 0 && part.len() > 0 ==> is_number(whole + seq!['e'] + part),
        !is_number(Seq::empty()),
        !is_number(seq!['-']),
{
    reveal_strlit("inf");
    reveal_strlit("infinity");
    reveal_strlit("nan");
    assert(seq!['-'].drop_first() =~= Seq::<char>::empty());
    assert(Seq::<char>::empty().take(0) =~= Seq::<char>::empty());
    let powers = seq!['e', 'E'];
    let points = seq!['.'];
    if whole.len() > 0 {
        assert(is_digit(whole[0]));
        no_mark_among_digits(whole, powers);
        no_mark_among_digits(whole, points);
        assert(whole.take(whole.len() as int) =~= whole);
        assert(is_scientific(whole));
        assert((seq!['-'] + whole).drop_first() =~= whole);
    }
    let broken = whole + seq!['.'] + part;
    if whole.len() + part.len() > 0 {
        assert forall|i: int| 0 <= i < broken.len() implies !powers.contains(#[trigger] broken[i]) by {
            if i < whole.len() {
                assert(broken[i] == whole[i]);
            } else if i > whole.len() {
                assert(broken[i] == part[i - whole.len() - 1]);
            }
        }
        no_mark_among_digits(broken, powers);
        assert(broken.take(broken.len() as int) =~= broken);
        assert(points[0] == '.');
        a_mark_behind_digits(whole, '.', part, points);
        assert(broken.take(whole.len() as int) =~= whole);
        assert(broken.skip(whole.len() as int + 1) =~= part);
        assert(is_mantissa(broken));
        if whole.len() > 0 {
            assert(broken[0] == whole[0]);
        } else {
            assert(broken[0] == '.');
        }
        assert(without_sign(broken) == broken);
    }
    let raised = whole + seq!['e'] + part;
    if whole.len() > 0 && part.len() > 0 {
        assert(powers[0] == 'e');
        a_mark_behind_digits(whole, 'e', part, powers);
        assert(raised.take(whole.len() as int) =~= whole);
        assert(raised.skip(whole.len() as int + 1) =~= part);
        assert(is_digit(part[0]));
        assert(without_sign(part) == part);
        assert(raised[0] == whole[0]);
        assert(without_sign(raised) == raised);
    }
}

} // verus!
