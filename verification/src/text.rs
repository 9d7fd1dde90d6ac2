//! Texts as sequences of characters: the questions the rest of the crate asks
//! of a string, and the few ways it puts strings together.

use vstd::prelude::*;

verus! {

broadcast use vstd::string::group_string_axioms;

/// `text` without the run of `mark` at its end.
pub open spec fn without_trailing(text: Seq<char>, mark: char) -> Seq<char>
    decreases text.len(),
{
    if text.len() > 0 && text.last() == mark {
        without_trailing(text.drop_last(), mark)
    } else {
        text
    }
}

/// Where `mark` stands last in `text`; -1 when it does not occur.
pub open spec fn last_index(text: Seq<char>, mark: char) -> int
    decreases text.len(),
{
    if text.len() == 0 {
        -1
    } else if text.last() == mark {
        text.len() - 1
    } else {
        last_index(text.drop_last(), mark)
    }
}

/// `part` occurs in `text` as an unbroken run.
pub open spec fn holds(text: Seq<char>, part: Seq<char>) -> bool {
    exists|at: int| #[trigger] occurs_at(text, part, at)
}

/// `part` stands in `text` from position `at` on.
pub open spec fn occurs_at(text: Seq<char>, part: Seq<char>, at: int) -> bool {
    &&& 0 <= at
    &&& at + part.len() <= text.len()
    &&& text.subrange(at, at + part.len()) == part
}

pub open spec fn begins_with(text: Seq<char>, part: Seq<char>) -> bool {
    part.len() <= text.len() && text.subrange(0, part.len() as int) == part
}

pub open spec fn ends_in(text: Seq<char>, part: Seq<char>) -> bool {
    part.len() <= text.len() && text.subrange(text.len() - part.len(), text.len() as int) == part
}

/// Dictionary order by code point: at the first difference the smaller
/// character wins, and a text stands before its own continuations.
pub open spec fn before(left: Seq<char>, right: Seq<char>) -> bool
    decreases left.len(),
{
    if right.len() == 0 {
        false
    } else if left.len() == 0 {
        true
    } else if left[0] != right[0] {
        left[0] < right[0]
    } else {
        before(left.drop_first(), right.drop_first())
    }
}

/// The runs between the marks, in order: one more than there are marks.
pub open spec fn pieces(text: Seq<char>, marks: Seq<char>) -> Seq<Seq<char>>
    decreases text.len(),
{
    if text.len() == 0 {
        seq![Seq::<char>::empty()]
    } else {
        let rest = pieces(text.drop_last(), marks);
        if marks.contains(text.last()) {
            rest.push(Seq::empty())
        } else {
            rest.drop_last().push(rest.last().push(text.last()))
        }
    }
}

/// The texts one after another with `glue` between neighbours.
pub open spec fn joined(parts: Seq<Seq<char>>, glue: Seq<char>) -> Seq<char>
    decreases parts.len(),
{
    if parts.len() == 0 {
        Seq::empty()
    } else if parts.len() == 1 {
        parts[0]
    } else {
        joined(parts.drop_last(), glue) + glue + parts.last()
    }
}

/// The contents of a list of strings.
pub open spec fn texts(list: Seq<String>) -> Seq<Seq<char>> {
    list.map_values(|text: String| text@)
}

/// White space as Unicode's `White_Space` property has it.
pub open spec fn is_space(c: char) -> bool {
    let code = c as u32;
    ||| 0x9 <= code <= 0xd
    ||| code == 0x20
    ||| code == 0x85
    ||| code == 0xa0
    ||| code == 0x1680
    ||| 0x2000 <= code <= 0x200a
    ||| code == 0x2028
    ||| code == 0x2029
    ||| code == 0x202f
    ||| code == 0x205f
    ||| code == 0x3000
}

/// `text` without the white space at its end.
pub open spec fn without_space_after(text: Seq<char>) -> Seq<char>
    decreases text.len(),
{
    if text.len() > 0 && is_space(text.last()) {
        without_space_after(text.drop_last())
    } else {
        text
    }
}

/// `text` without the white space at its start.
pub open spec fn without_space_before(text: Seq<char>) -> Seq<char>
    decreases text.len(),
{
    if text.len() > 0 && is_space(text[0]) {
        without_space_before(text.drop_first())
    } else {
        text
    }
}

/// A text in lower case, as `str::to_lowercase` has it.
pub uninterp spec fn lowercased(text: Seq<char>) -> Seq<char>;

/// A text in upper case, as `str::to_uppercase` has it.
pub uninterp spec fn uppercased(text: Seq<char>) -> Seq<char>;

/// Calls `str::to_lowercase`: the result is the text in lower case by Unicode's
/// tables, which are not written out here. It depends on the text alone.
#[verifier::external_body]
pub(crate) fn lowercase(text: &str) -> (lower: String)
    ensures
        lower@ == lowercased(text@),
{
    text.to_lowercase()
}

/// Calls `str::to_uppercase`: the result is the text in upper case by Unicode's
/// tables, which are not written out here. It depends on the text alone.
#[verifier::external_body]
pub(crate) fn uppercase(text: &str) -> (upper: String)
    ensures
        upper@ == uppercased(text@),
{
    text.to_uppercase()
}

/// The characters of a string, in order.
pub fn chars(text: &str) -> (all: Vec<char>)
    ensures
        all@ == text@,
{
    let mut all: Vec<char> = Vec::new();
    for c in it: text.chars()
        invariant
            it.seq() == text@,
            all@ == text@.take(it.index() as int),
    {
        all.push(c);
        assert(text@.take(it.index() + 1) =~= text@.take(it.index() as int).push(c));
    }
    assert(text@.take(text@.len() as int) =~= text@);
    all
}

/// How many characters a string has.
pub fn length(text: &str) -> (count: usize)
    ensures
        count == text@.len(),
{
    text.unicode_len()
}

/// A copy of the characters `from..to`.
pub fn slice(text: &str, from: usize, to: usize) -> (part: String)
    requires
        from <= to <= text@.len(),
    ensures
        part@ == text@.subrange(from as int, to as int),
{
    text.substring_char(from, to).to_owned()
}

/// Whether two strings have the same characters.
pub fn same(left: &str, right: &str) -> (yes: bool)
    ensures
        yes == (left@ == right@),
{
    let a: Vec<char> = chars(left);
    let b: Vec<char> = chars(right);
    if a.len() != b.len() {
        return false;
    }
    let mut at: usize = 0;
    while at < a.len()
        invariant
            a@ == left@,
            b@ == right@,
            a.len() == b.len(),
            at <= a.len(),
            forall|i: int| 0 <= i < at ==> a[i] == b[i],
        decreases a.len() - at,
    {
        if a[at] != b[at] {
            return false;
        }
        at += 1;
    }
    assert(left@ =~= right@);
    true
}

/// One string after another.
pub fn concat(left: &str, right: &str) -> (both: String)
    ensures
        both@ == left@ + right@,
{
    let mut both: String = left.to_owned();
    both.append(right);
    both
}


/// Without the run of `mark` at the end.
pub fn trim_trailing(text: &str, mark: char) -> (kept: &str)
    ensures
        kept@ == without_trailing(text@, mark),
{
    let all: Vec<char> = chars(text);
    let mut end: usize = all.len();
    assert(text@.take(end as int) =~= text@);
    while end > 0 && all[end - 1] == mark
        invariant
            end <= all.len(),
            all@ == text@,
            without_trailing(text@.take(end as int), mark) == without_trailing(text@, mark),
        decreases end,
    {
        assert(text@.take(end as int).drop_last() =~= text@.take(end - 1));
        end -= 1;
    }
    assert(text@.take(end as int) =~= text@.subrange(0, end as int));
    text.substring_char(0, end)
}

/// Where `mark` stands last.
pub fn rfind(text: &str, mark: char) -> (found: Option<usize>)
    ensures
        match found {
            Some(at) => at == last_index(text@, mark) && at < text@.len(),
            None => last_index(text@, mark) == -1,
        },
{
    let all: Vec<char> = chars(text);
    let mut end: usize = all.len();
    assert(text@.take(end as int) =~= text@);
    while end > 0
        invariant
            end <= all.len(),
            all@ == text@,
            last_index(text@.take(end as int), mark) == last_index(text@, mark),
        decreases end,
    {
        assert(text@.take(end as int).drop_last() =~= text@.take(end - 1));
        if all[end - 1] == mark {
            return Some(end - 1);
        }
        end -= 1;
    }
    None
}

/// Whether `part` stands in `text` at `at`, both given by their characters.
fn stands_at(text: &Vec<char>, part: &Vec<char>, at: usize) -> (yes: bool)
    requires
        at + part.len() <= text.len(),
    ensures
        yes == occurs_at(text@, part@, at as int),
{
    let mut i: usize = 0;
    while i < part.len()
        invariant
            i <= part.len(),
            at + part.len() <= text.len(),
            forall|j: int| 0 <= j < i ==> text[at + j] == part[j],
        decreases part.len() - i,
    {
        if text[at + i] != part[i] {
            assert(text@.subrange(at as int, at + part.len())[i as int] != part@[i as int]);
            return false;
        }
        i += 1;
    }
    assert(text@.subrange(at as int, at + part.len()) =~= part@);
    true
}

/// Whether `part` occurs anywhere in `text`.
pub fn contains(text: &str, part: &str) -> (yes: bool)
    ensures
        yes == holds(text@, part@),
{
    let all: Vec<char> = chars(text);
    let sought: Vec<char> = chars(part);
    if sought.len() > all.len() {
        return false;
    }
    let last: usize = all.len() - sought.len();
    let mut at: usize = 0;
    while at <= last
        invariant
            all@ == text@,
            sought@ == part@,
            last == all.len() - sought.len(),
            sought.len() <= all.len(),
            at <= last + 1,
            forall|i: int| 0 <= i < at ==> !occurs_at(text@, part@, i),
        decreases last + 1 - at,
    {
        if stands_at(&all, &sought, at) {
            return true;
        }
        if at == last {
            assert forall|i: int| !occurs_at(text@, part@, i) by {}
            return false;
        }
        at += 1;
    }
    false
}

pub fn starts_with(text: &str, part: &str) -> (yes: bool)
    ensures
        yes == begins_with(text@, part@),
{
    let all: Vec<char> = chars(text);
    let sought: Vec<char> = chars(part);
    sought.len() <= all.len() && stands_at(&all, &sought, 0)
}

pub fn ends_with(text: &str, part: &str) -> (yes: bool)
    ensures
        yes == ends_in(text@, part@),
{
    let all: Vec<char> = chars(text);
    let sought: Vec<char> = chars(part);
    sought.len() <= all.len() && stands_at(&all, &sought, all.len() - sought.len())
}

/// Whether `left` stands before `right` in dictionary order.
pub fn is_before(left: &str, right: &str) -> (yes: bool)
    ensures
        yes == before(left@, right@),
{
    let a: Vec<char> = chars(left);
    let b: Vec<char> = chars(right);
    let mut at: usize = 0;
    assert(left@.skip(0) =~= left@);
    assert(right@.skip(0) =~= right@);
    while at < a.len() && at < b.len()
        invariant
            a@ == left@,
            b@ == right@,
            at <= a.len(),
            at <= b.len(),
            before(left@.skip(at as int), right@.skip(at as int)) == before(left@, right@),
        decreases a.len() - at,
    {
        if a[at] != b[at] {
            return a[at] < b[at];
        }
        assert(left@.skip(at as int).drop_first() =~= left@.skip(at + 1));
        assert(right@.skip(at as int).drop_first() =~= right@.skip(at + 1));
        at += 1;
    }
    at < b.len()
}

/// The runs between the characters of `marks`.
pub fn split(text: &str, marks: &[char]) -> (parts: Vec<String>)
    ensures
        texts(parts@) == pieces(text@, marks@),
        parts@.len() >= 1,
{
    let all: Vec<char> = chars(text);
    let mut parts: Vec<String> = Vec::new();
    let mut from: usize = 0;
    let mut at: usize = 0;
    assert(text@.subrange(0, 0) =~= Seq::<char>::empty());
    assert(texts(parts@).push(text@.subrange(0, 0)) =~= pieces(text@.take(0), marks@));
    while at < all.len()
        invariant
            all@ == text@,
            from <= at <= all.len(),
            texts(parts@).push(text@.subrange(from as int, at as int)) == pieces(text@.take(at as int), marks@),
        decreases all.len() - at,
    {
        let c: char = all[at];
        let marked: bool = is_one_of(c, marks);
        assert(text@.take(at + 1).drop_last() =~= text@.take(at as int));
        if marked {
            let ghost earlier = parts@;
            let ghost start = from;
            parts.push(slice(text, from, at));
            from = at + 1;
            assert(texts(parts@) =~= texts(earlier).push(text@.subrange(start as int, at as int)));
            assert(text@.subrange(from as int, at + 1) =~= Seq::<char>::empty());
        } else {
            assert(text@.subrange(from as int, at + 1) =~= text@.subrange(from as int, at as int).push(c));
            assert(texts(parts@).push(text@.subrange(from as int, at as int)).drop_last() =~= texts(parts@));
        }
        at += 1;
    }
    assert(text@.take(text@.len() as int) =~= text@);
    let ghost earlier = parts@;
    parts.push(slice(text, from, at));
    assert(texts(parts@) =~= texts(earlier).push(text@.subrange(from as int, at as int)));
    parts
}

pub fn is_one_of(c: char, marks: &[char]) -> (yes: bool)
    ensures
        yes == marks@.contains(c),
{
    let mut i: usize = 0;
    while i < marks.len()
        invariant
            i <= marks.len(),
            forall|j: int| 0 <= j < i ==> marks[j] != c,
        decreases marks.len() - i,
    {
        if marks[i] == c {
            return true;
        }
        i += 1;
    }
    false
}

/// Whether a list of strings has this one.
pub fn is_listed(list: &Vec<String>, sought: &str) -> (yes: bool)
    ensures
        yes == texts(list@).contains(sought@),
{
    let ghost all = texts(list@);
    let mut i: usize = 0;
    while i < list.len()
        invariant
            i <= list.len(),
            all == texts(list@),
            forall|j: int| 0 <= j < i ==> #[trigger] all[j] != sought@,
        decreases list.len() - i,
    {
        assert(all[i as int] == list@[i as int]@);
        if same(&list[i], sought) {
            return true;
        }
        i += 1;
    }
    false
}

/// The strings one after another with `glue` between neighbours.
pub fn join(parts: &Vec<String>, glue: &str) -> (all: String)
    ensures
        all@ == joined(texts(parts@), glue@),
{
    let mut all: String = String::new();
    let mut i: usize = 0;
    while i < parts.len()
        invariant
            i <= parts.len(),
            all@ == joined(texts(parts@).take(i as int), glue@),
        decreases parts.len() - i,
    {
        assert(texts(parts@).take(i + 1).drop_last() =~= texts(parts@).take(i as int));
        if i > 0 {
            all.append(glue);
        }
        all.append(&parts[i]);
        assert(all@ =~= joined(texts(parts@).take(i + 1), glue@));
        i += 1;
    }
    assert(texts(parts@).take(parts@.len() as int) =~= texts(parts@));
    all
}

pub fn space(c: char) -> (yes: bool)
    ensures
        yes == is_space(c),
{
    let code: u32 = c as u32;
    (0x9 <= code && code <= 0xd) || code == 0x20 || code == 0x85 || code == 0xa0 || code == 0x1680
        || (0x2000 <= code && code <= 0x200a) || code == 0x2028 || code == 0x2029 || code == 0x202f
        || code == 0x205f || code == 0x3000
}

/// Without the white space at the end.
pub fn trim_end(text: &str) -> (kept: &str)
    ensures
        kept@ == without_space_after(text@),
{
    let all: Vec<char> = chars(text);
    let mut end: usize = all.len();
    assert(text@.take(end as int) =~= text@);
    while end > 0 && space(all[end - 1])
        invariant
            end <= all.len(),
            all@ == text@,
            without_space_after(text@.take(end as int)) == without_space_after(text@),
        decreases end,
    {
        assert(text@.take(end as int).drop_last() =~= text@.take(end - 1));
        end -= 1;
    }
    assert(text@.take(end as int) =~= text@.subrange(0, end as int));
    text.substring_char(0, end)
}

/// Without the white space at either end.
pub fn trim(text: &str) -> (kept: &str)
    ensures
        kept@ == without_space_after(without_space_before(text@)),
{
    let all: Vec<char> = chars(text);
    let mut from: usize = 0;
    assert(text@.skip(0) =~= text@);
    while from < all.len() && space(all[from])
        invariant
            from <= all.len(),
            all@ == text@,
            without_space_before(text@.skip(from as int)) == without_space_before(text@),
        decreases all.len() - from,
    {
        assert(text@.skip(from as int).drop_first() =~= text@.skip(from + 1));
        from += 1;
    }
    assert(text@.skip(from as int) =~= text@.subrange(from as int, text@.len() as int));
    trim_end(text.substring_char(from, all.len()))
}

/// Dictionary order never puts a text before itself.
pub proof fn before_is_irreflexive(text: Seq<char>)
    ensures
        !before(text, text),
    decreases text.len(),
{
    if text.len() > 0 {
        before_is_irreflexive(text.drop_first());
    }
}

/// Dictionary order is transitive.
pub proof fn before_is_transitive(a: Seq<char>, b: Seq<char>, c: Seq<char>)
    requires
        before(a, b),
        before(b, c),
    ensures
        before(a, c),
    decreases a.len(),
{
    if a.len() > 0 && a[0] == b[0] && b[0] == c[0] {
        before_is_transitive(a.drop_first(), b.drop_first(), c.drop_first());
    }
}

/// Two texts of which neither stands before the other are one text.
pub proof fn before_is_total(a: Seq<char>, b: Seq<char>)
    requires
        !before(a, b),
        !before(b, a),
    ensures
        a == b,
    decreases a.len(),
{
    if a.len() == 0 || b.len() == 0 {
        assert(a =~= b);
    } else {
        before_is_total(a.drop_first(), b.drop_first());
        assert(a =~= seq![a[0]] + a.drop_first());
        assert(b =~= seq![b[0]] + b.drop_first());
    }
}

/// The first place in which two texts differ decides which of them is before the other, by
/// the codes of the characters there; of two texts of which one goes on where the other
/// ends, the shorter is before.
pub proof fn the_first_difference_decides(left: Seq<char>, right: Seq<char>, at: int)
    requires
        0 <= at <= left.len(),
        at <= right.len(),
        left.take(at) == right.take(at),
    ensures
        at < left.len() && at < right.len() && left[at] < right[at] ==> before(left, right) && !before(right, left),
        at == left.len() && at < right.len() ==> before(left, right) && !before(right, left),
        at == left.len() && at == right.len() ==> !before(left, right),
    decreases at,
{
    if at > 0 {
        assert(left.take(at)[0] == left[0] && right.take(at)[0] == right[0]);
        let (less, more) = (left.drop_first(), right.drop_first());
        assert(less.take(at - 1) =~= left.take(at).drop_first());
        assert(more.take(at - 1) =~= right.take(at).drop_first());
        the_first_difference_decides(less, more, at - 1);
    }
}

/// What is taken off an end is the mark and nothing else, and all of it is.
pub proof fn only_the_mark_is_taken_off(text: Seq<char>, mark: char)
    ensures
        ({
            let kept = without_trailing(text, mark);
            &&& kept.len() <= text.len()
            &&& kept == text.take(kept.len() as int)
            &&& kept.len() > 0 ==> kept.last() != mark
            &&& forall|i: int| kept.len() <= i < text.len() ==> #[trigger] text[i] == mark
        }),
    decreases text.len(),
{
    let kept = without_trailing(text, mark);
    if text.len() > 0 && text.last() == mark {
        only_the_mark_is_taken_off(text.drop_last(), mark);
        assert(kept =~= text.take(kept.len() as int));
        assert forall|i: int| kept.len() <= i < text.len() implies #[trigger] text[i] == mark by {
            if i < text.len() - 1 {
                assert(text.drop_last()[i] == text[i]);
            }
        }
    } else {
        assert(kept =~= text.take(kept.len() as int));
    }
}

/// The last place of a mark has it, and there is none behind it; where the mark is nowhere,
/// there is no such place.
pub proof fn the_last_place_is_the_last(text: Seq<char>, mark: char)
    ensures
        ({
            let at = last_index(text, mark);
            &&& -1 <= at < text.len()
            &&& at >= 0 ==> text[at] == mark
            &&& forall|i: int| at < i < text.len() ==> #[trigger] text[i] != mark
        }),
    decreases text.len(),
{
    if text.len() > 0 && text.last() != mark {
        the_last_place_is_the_last(text.drop_last(), mark);
        assert forall|i: int| last_index(text, mark) < i < text.len() implies #[trigger] text[i] != mark by {
            if i < text.len() - 1 {
                assert(text.drop_last()[i] == text[i]);
            }
        }
    }
}

/// A text holds what stands inside it, begins with what it goes on from and ends in what it
/// leads up to; and no text holds more than itself.
pub proof fn a_text_holds_its_parts(front: Seq<char>, part: Seq<char>, back: Seq<char>)
    ensures
        holds(front + part + back, part),
        begins_with(front + back, front),
        ends_in(front + back, back),
        part.len() < front.len() ==> !holds(part, front) && !begins_with(part, front) && !ends_in(part, front),
{
    let all = front + part + back;
    assert(all.subrange(front.len() as int, (front.len() + part.len()) as int) =~= part);
    assert(occurs_at(all, part, front.len() as int));
    assert((front + back).subrange(0, front.len() as int) =~= front);
    assert((front + back).subrange(front.len() as int, (front + back).len() as int) =~= back);
}

/// What a text holds stands in it, letter by letter.
pub proof fn what_is_held_is_there(text: Seq<char>, part: Seq<char>)
    requires
        holds(text, part),
    ensures
        exists|at: int| {
            &&& 0 <= at <= text.len() - part.len()
            &&& text =~= #[trigger] text.take(at) + part + text.skip(at + part.len())
        },
{
    let at = choose|at: int| #[trigger] occurs_at(text, part, at);
    assert(text =~= text.take(at) + text.subrange(at, at + part.len()) + text.skip(at + part.len()));
}

/// The pieces of a text have no mark in them, and put together with the mark between them
/// they are the text.
pub proof fn the_pieces_make_the_text(text: Seq<char>, mark: char)
    ensures
        pieces(text, seq![mark]).len() > 0,
        joined(pieces(text, seq![mark]), seq![mark]) == text,
        forall|i: int, j: int|
            0 <= i < pieces(text, seq![mark]).len() && 0 <= j < pieces(text, seq![mark])[i].len() ==> #[trigger] pieces(
                text,
                seq![mark],
            )[i][j] != mark,
    decreases text.len(),
{
    let marks = seq![mark];
    let all = pieces(text, marks);
    if text.len() == 0 {
        assert(joined(all, marks) =~= text);
    } else {
        let front = text.drop_last();
        let rest = pieces(front, marks);
        the_pieces_make_the_text(front, mark);
        assert(marks[0] == mark);
        if marks.contains(text.last()) {
            assert(all.drop_last() =~= rest);
            assert(joined(all, marks) =~= front + marks + Seq::<char>::empty());
            assert(text =~= front.push(mark));
            assert(joined(all, marks) =~= text);
        } else {
            assert(text.last() != mark);
            assert(all.drop_last() =~= rest.drop_last());
            if all.len() == 1 {
                assert(joined(all, marks) =~= rest[0].push(text.last()));
            } else {
                assert(joined(all, marks) =~= joined(rest, marks).push(text.last()));
            }
            assert(front.push(text.last()) =~= text);
        }
    }
}

/// Of the letters of the keyboard the blank, the tab and the ends of lines are space.
pub proof fn what_is_space(c: char)
    requires
        (c as u32) < 0x80,
    ensures
        is_space(c) <==> c == ' ' || c == '\t' || c == '\n' || c == '\r' || c as u32 == 0xb || c as u32 == 0xc,
{
}

/// Only space is taken off, before and behind, and all of it.
pub proof fn only_space_is_taken_off(text: Seq<char>)
    ensures
        ({
            let kept = without_space_after(text);
            &&& kept.len() <= text.len()
            &&& kept == text.take(kept.len() as int)
            &&& kept.len() > 0 ==> !is_space(kept.last())
            &&& forall|i: int| kept.len() <= i < text.len() ==> is_space(#[trigger] text[i])
        }),
        ({
            let kept = without_space_before(text);
            &&& kept.len() <= text.len()
            &&& kept == text.skip(text.len() - kept.len())
            &&& kept.len() > 0 ==> !is_space(kept[0])
            &&& forall|i: int| 0 <= i < text.len() - kept.len() ==> is_space(#[trigger] text[i])
        }),
    decreases text.len(),
{
    let after = without_space_after(text);
    if text.len() > 0 && is_space(text.last()) {
        let rest = text.drop_last();
        only_space_is_taken_off(rest);
        assert(after =~= text.take(after.len() as int));
        assert forall|i: int| after.len() <= i < text.len() implies is_space(#[trigger] text[i]) by {
            if i < rest.len() {
                assert(rest[i] == text[i]);
            }
        }
    } else {
        assert(after =~= text.take(after.len() as int));
    }
    let before = without_space_before(text);
    if text.len() > 0 && is_space(text[0]) {
        let rest = text.drop_first();
        only_space_is_taken_off(rest);
        assert(before =~= text.skip(text.len() - before.len()));
        assert forall|i: int| 0 <= i < text.len() - before.len() implies is_space(#[trigger] text[i]) by {
            if i > 0 {
                assert(rest[i - 1] == text[i]);
            }
        }
    } else {
        assert(before =~= text.skip(text.len() - before.len()));
    }
}

/// Parts are joined in their order with the glue between them.
pub proof fn parts_are_joined_in_their_order(parts: Seq<Seq<char>>, part: Seq<char>, glue: Seq<char>)
    ensures
        joined(Seq::empty(), glue).len() == 0,
        joined(seq![part], glue) == part,
        parts.len() > 0 ==> joined(parts.push(part), glue) == joined(parts, glue) + glue + part,
{
    assert(parts.push(part).drop_last() =~= parts);
}

/// A text begins with what it was put behind, and ends in what was put behind it.
pub proof fn a_text_begins_and_ends(front: Seq<char>, back: Seq<char>)
    ensures
        begins_with(front + back, front),
        ends_in(front + back, back),
{
    let whole = front + back;
    assert(whole.subrange(0, front.len() as int) =~= front);
    assert(whole.subrange(whole.len() - back.len(), whole.len() as int) =~= back);
}

} // verus!
