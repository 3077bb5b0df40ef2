//! What holds of splitting, trimming, searching and writing texts.
use crate::text;
use crate::text::Separator;
use vstd::prelude::*;
use vstd::string::*;

verus! {

/// Whether a text consists of white space.
pub open spec fn is_blank(s: Seq<char>) -> bool {
    forall|i: int| 0 <= i < s.len() ==> text::is_white_space(#[trigger] s[i])
}

/// Whether a text is free of a character.
pub open spec fn lacks(s: Seq<char>, c: char) -> bool {
    forall|i: int| 0 <= i < s.len() ==> #[trigger] s[i] != c
}

/// The characters that count as white space, by their numbers.
pub proof fn law_white_space(c: char, res: bool)
    requires
        call_ensures(text::white_space, (c,), res),
    ensures
        c as u32 <= 8 || 14 <= c as u32 <= 31 ==> !res,
        9 <= c as u32 <= 13 || c as u32 == 32 ==> res,
        33 <= c as u32 <= 132 || 134 <= c as u32 <= 159 ==> !res,
        c as u32 == 133 || c as u32 == 160 || c as u32 == 5760 ==> res,
        161 <= c as u32 <= 5759 || 5761 <= c as u32 <= 8191 ==> !res,
        8192 <= c as u32 <= 8202 || c as u32 == 8232 || c as u32 == 8233 || c as u32 == 8239 ==> res,
        c as u32 == 8287 || c as u32 == 12288 ==> res,
        8203 <= c as u32 <= 8231 || 8234 <= c as u32 <= 8238 || 8240 <= c as u32 <= 8286 || 8288
            <= c as u32 <= 12287 || 12289 <= c as u32 ==> !res,
        res == text::is_white_space(c),
{
}

/// Trimming takes off just the white space around what is neither begun nor ended by it.
pub proof fn law_trimmed(s: &str, res: String, front: Seq<char>, kept: Seq<char>, back: Seq<char>)
    requires
        call_ensures(text::trimmed, (s,), res),
        s@ == front + kept + back,
        is_blank(front),
        is_blank(back),
        kept.len() > 0 ==> !text::is_white_space(kept[0]) && !text::is_white_space(kept.last()),
    ensures
        res@ == kept,
        text::trim(s@) == kept,
{
    lemma_trim_end(front + kept, back);
    if kept.len() > 0 {
        assert((front + kept).last() == kept.last());
        assert(text::trim_end(front + kept) == front + kept);
        lemma_trim_start(front, kept);
        assert(text::trim_start(kept) == kept);
    } else {
        assert(front + kept =~= Seq::<char>::empty() + front);
        lemma_trim_end(Seq::<char>::empty(), front);
        assert(text::trim_end(Seq::<char>::empty()) =~= Seq::<char>::empty());
        assert(text::trim_start(Seq::<char>::empty()) =~= Seq::<char>::empty());
        assert(kept =~= Seq::<char>::empty());
    }
}

proof fn lemma_trim_end(s: Seq<char>, back: Seq<char>)
    requires
        is_blank(back),
    ensures
        text::trim_end(s + back) == text::trim_end(s),
    decreases back.len(),
{
    if back.len() == 0 {
        assert(s + back =~= s);
    } else {
        let rest = back.drop_last();
        assert(is_blank(rest)) by {
            assert forall|i: int| 0 <= i < rest.len() implies text::is_white_space(
                #[trigger] rest[i],
            ) by {
                assert(rest[i] == back[i]);
            }
        }
        lemma_trim_end(s, rest);
        assert(text::is_white_space(back[back.len() - 1]));
        assert((s + back).drop_last() =~= s + rest);
        assert((s + back).last() == back.last());
    }
}

proof fn lemma_trim_start(front: Seq<char>, s: Seq<char>)
    requires
        is_blank(front),
    ensures
        text::trim_start(front + s) == text::trim_start(s),
    decreases front.len(),
{
    if front.len() == 0 {
        assert(front + s =~= s);
    } else {
        let rest = front.drop_first();
        assert(is_blank(rest)) by {
            assert forall|i: int| 0 <= i < rest.len() implies text::is_white_space(
                #[trigger] rest[i],
            ) by {
                assert(rest[i] == front[i + 1]);
            }
        }
        lemma_trim_start(rest, s);
        assert(text::is_white_space(front[0]));
        assert((front + s).drop_first() =~= rest + s);
        assert((front + s)[0] == front[0]);
    }
}

/// Splitting a text at a character and joining the parts with it gives the text again, and no part
/// holds the character.
pub proof fn law_split(s: &str, c: char, res: Vec<String>, i: int)
    requires
        call_ensures(text::split, (s, Separator::Char(c)), res),
    ensures
        res@.len() > 0,
        text::joined(text::texts(res@), seq![c]) == s@,
        0 <= i < res@.len() ==> lacks(res@[i]@, c),
{
    let parts = text::pieces(s@, Separator::Char(c));
    assert(text::texts(res@) == parts);
    assert(parts.len() == res@.len());
    text::lemma_pieces_not_empty(s@, Separator::Char(c));
    lemma_pieces_joined(s@, c);
    if 0 <= i < res@.len() {
        assert(parts[i] == res@[i]@);
        assert forall|j: int| 0 <= j < parts[i].len() implies #[trigger] parts[i][j] != c by {
            text::lemma_pieces_hold_no_separator(s@, Separator::Char(c), i, j);
        }
    }
}

/// Joining the pieces between characters gives the text again.
pub proof fn lemma_pieces_joined(s: Seq<char>, c: char)
    ensures
        text::joined(text::pieces(s, Separator::Char(c)), seq![c]) == s,
    decreases s.len(),
{
    let sep = Separator::Char(c);
    let parts = text::pieces(s, sep);
    if s.len() == 0 {
        assert(parts =~= seq![Seq::<char>::empty()]);
        assert(text::joined(parts, seq![c]) =~= s);
    } else {
        let rest = s.drop_last();
        let before = text::pieces(rest, sep);
        text::lemma_pieces_not_empty(rest, sep);
        lemma_pieces_joined(rest, c);
        assert(s =~= rest.push(s.last()));
        if sep.holds(s.last()) {
            assert(parts.drop_last() =~= before);
            assert(parts.last() =~= Seq::<char>::empty());
            assert(text::joined(parts, seq![c]) =~= rest + seq![c]);
            assert(rest + seq![c] =~= s);
        } else {
            assert(parts.drop_last() =~= before.drop_last());
            assert(parts.last() == before.last().push(s.last()));
            assert(text::joined(parts, seq![c]) =~= text::joined(before, seq![c]).push(s.last()));
        }
    }
}

/// White space between two texts parts their words, and what holds no white space is a word.
pub proof fn law_words(
    a: &str,
    b: &str,
    both: &str,
    c: char,
    of_a: Vec<String>,
    of_b: Vec<String>,
    of_both: Vec<String>,
)
    requires
        call_ensures(text::split_words, (a,), of_a),
        call_ensures(text::split_words, (b,), of_b),
        call_ensures(text::split_words, (both,), of_both),
        text::is_white_space(c),
        both@ == a@.push(c) + b@,
    ensures
        text::texts(of_both@) == text::texts(of_a@) + text::texts(of_b@),
        a@.len() == 0 ==> of_a@.len() == 0,
        a@.len() > 0 && (forall|i: int|
            0 <= i < a@.len() ==> !text::is_white_space(#[trigger] a@[i])) ==> of_a@.len() == 1
            && of_a@[0]@ == a@,
{
    let keep = |w: Seq<char>| w.len() > 0;
    let sep = Separator::WhiteSpace;
    text::lemma_pieces_of_joined(a@, c, b@, sep);
    Seq::filter_distributes_over_add(text::pieces(a@, sep), text::pieces(b@, sep), keep);
    assert(text::texts(of_a@).len() == of_a@.len());
    if forall|i: int| 0 <= i < a@.len() ==> !text::is_white_space(#[trigger] a@[i]) {
        text::lemma_pieces_of_one(a@, sep);
        reveal(Seq::filter);
        let one = seq![a@];
        assert(one.drop_last() =~= Seq::<Seq<char>>::empty());
        assert(one.drop_last().filter(keep) =~= Seq::<Seq<char>>::empty());
        assert(one.last() == a@);
        if a@.len() > 0 {
            assert(one.filter(keep) =~= seq![a@]);
            assert(text::texts(of_a@)[0] == of_a@[0]@);
        }
    }
}

/// A line ends at a line feed, in front of which a carriage return does not count. What follows
/// the last line feed is a line if it is not empty.
pub proof fn law_lines(
    line: &str,
    rest: &str,
    both: &str,
    of_line: Vec<String>,
    of_rest: Vec<String>,
    of_both: Vec<String>,
)
    requires
        call_ensures(text::split_lines, (line,), of_line),
        call_ensures(text::split_lines, (rest,), of_rest),
        call_ensures(text::split_lines, (both,), of_both),
        lacks(line@, '\n'),
        both@ == line@.push('\n') + rest@,
    ensures
        line@.len() == 0 ==> of_line@.len() == 0,
        line@.len() > 0 ==> of_line@.len() == 1 && of_line@[0]@ == line@,
        line@.len() > 0 && line@.last() == '\r' ==> text::texts(of_both@) == seq![line@.drop_last()]
            + text::texts(of_rest@),
        line@.len() == 0 || line@.last() != '\r' ==> text::texts(of_both@) == seq![line@]
            + text::texts(of_rest@),
{
    let sep = Separator::Char('\n');
    let strip = |l: Seq<char>| text::without_carriage_return(l);
    text::lemma_pieces_of_one(line@, sep);
    text::lemma_pieces_of_joined(line@, '\n', rest@, sep);
    text::lemma_pieces_not_empty(rest@, sep);
    let of = text::pieces(rest@, sep);
    let all = text::pieces(both@, sep);
    assert(all =~= seq![line@] + of);
    assert(all.last() == of.last());
    assert(all.drop_last() =~= seq![line@] + of.drop_last());
    assert(all.drop_last().map_values(strip) =~= seq![strip(line@)] + of.drop_last().map_values(
        strip,
    ));
    assert(text::lines(both@) =~= seq![strip(line@)] + text::lines(rest@));
    let own = text::pieces(line@, sep);
    assert(own.drop_last() =~= Seq::<Seq<char>>::empty());
    assert(own.drop_last().map_values(strip) =~= Seq::<Seq<char>>::empty());
    assert(text::texts(of_line@).len() == of_line@.len());
    if line@.len() > 0 {
        assert(text::lines(line@) =~= seq![line@]);
        assert(text::texts(of_line@)[0] == of_line@[0]@);
    }
}

/// A text has a prefix just if something can be put behind the prefix to give the text, and a
/// suffix just if something can be put in front of it.
pub proof fn law_affixes(
    s: &str,
    affix: &str,
    front: bool,
    back: bool,
    without: Option<String>,
    rest: Seq<char>,
)
    requires
        call_ensures(text::has_prefix, (s, affix), front),
        call_ensures(text::has_suffix, (s, affix), back),
        call_ensures(text::without_prefix, (s, affix), without),
    ensures
        s@ == affix@ + rest ==> front && without is Some && without->0@ == rest,
        s@ == rest + affix@ ==> back,
        front ==> s@ == affix@ + s@.skip(affix@.len() as int),
        back ==> s@ == s@.take(s@.len() - affix@.len()) + affix@,
        without is Some <==> front,
        front ==> s@ == affix@ + without->0@,
{
    let n = affix@.len() as int;
    if s@ == affix@ + rest {
        assert(s@.take(n) =~= affix@);
        assert(s@.skip(n) =~= rest);
    }
    if s@ == rest + affix@ {
        assert(s@.skip(s@.len() - n) =~= affix@);
    }
    if front {
        assert(s@ =~= s@.take(n) + s@.skip(n));
    }
    if back {
        assert(s@ =~= s@.take(s@.len() - n) + s@.skip(s@.len() - n));
    }
}

/// A prefix is taken off as often as it stands in front, and no more.
pub proof fn law_strip_prefixes(
    s: &str,
    more: &str,
    prefix: &str,
    of_s: String,
    of_more: String,
)
    requires
        call_ensures(text::strip_prefixes, (s, prefix), of_s),
        call_ensures(text::strip_prefixes, (more, prefix), of_more),
        prefix@.len() > 0,
        more@ == prefix@ + s@,
    ensures
        of_more@ == of_s@,
        !text::starts_with(s@, prefix@) ==> of_s@ == s@,
        !text::starts_with(of_s@, prefix@),
{
    let n = prefix@.len() as int;
    assert(more@.take(n) =~= prefix@);
    assert(more@.skip(n) =~= s@);
    lemma_no_prefix_left(s@, prefix@);
}

proof fn lemma_no_prefix_left(s: Seq<char>, prefix: Seq<char>)
    requires
        prefix.len() > 0,
    ensures
        !text::starts_with(text::without_prefixes(s, prefix), prefix),
    decreases s.len(),
{
    if text::starts_with(s, prefix) {
        lemma_no_prefix_left(s.skip(prefix.len() as int), prefix);
    }
}

/// Replacing a part replaces it where it stands in front, passes over a character where it does
/// not, and goes on behind that.
pub proof fn law_replace_all(
    rest: &str,
    with_part: &str,
    with_char: &str,
    part: &str,
    by: &str,
    of_rest: String,
    of_part: String,
    of_char: String,
)
    requires
        part@.len() > 0,
        call_ensures(text::replace_all, (rest, part, by), of_rest),
        call_ensures(text::replace_all, (with_part, part, by), of_part),
        call_ensures(text::replace_all, (with_char, part, by), of_char),
        with_part@ == part@ + rest@,
        with_char@.len() > 0,
        with_char@.skip(1) == rest@,
        !text::starts_with(with_char@, part@),
    ensures
        of_part@ == by@ + of_rest@,
        of_char@ == seq![with_char@[0]] + of_rest@,
        rest@.len() == 0 ==> of_rest@.len() == 0,
{
    let n = part@.len() as int;
    assert(with_part@.take(n) =~= part@);
    assert(with_part@.skip(n) =~= rest@);
    assert(with_char@.drop_first() =~= with_char@.skip(1));
}

/// Parts are joined one behind the other, with the separator between each two.
pub proof fn law_join(
    parts: &Vec<String>,
    more: &Vec<String>,
    sep: &str,
    of_parts: String,
    of_more: String,
)
    requires
        call_ensures(text::join, (parts, sep), of_parts),
        call_ensures(text::join, (more, sep), of_more),
        more@.len() == parts@.len() + 1,
        forall|i: int| 0 <= i < parts@.len() ==> (#[trigger] parts@[i])@ == more@[i]@,
    ensures
        parts@.len() == 0 ==> of_parts@.len() == 0 && of_more@ == more@[0]@,
        parts@.len() > 0 ==> of_more@ == of_parts@ + sep@ + more@.last()@,
{
    let (x, y) = (text::texts(parts@), text::texts(more@));
    assert(y.drop_last() =~= x) by {
        assert forall|i: int| 0 <= i < x.len() implies x[i] == y[i] by {
            assert(x[i] == parts@[i]@ && y[i] == more@[i]@);
        }
    }
    assert(y[y.len() - 1] == more@.last()@);
}

/// The number that digits stand for.
pub open spec fn number_of(digits: Seq<char>) -> int
    decreases digits.len(),
{
    if digits.len() == 0 {
        0
    } else {
        number_of(digits.drop_last()) * 10 + (digits.last() as int - 48)
    }
}

/// A number is written with the digits that stand for it, without zeros in front.
pub proof fn law_decimal_text(n: u128, res: String)
    requires
        call_ensures(text::decimal_text, (n,), res),
    ensures
        res@.len() > 0,
        forall|i: int| 0 <= i < res@.len() ==> 48 <= (#[trigger] res@[i]) as int <= 57,
        number_of(res@) == n,
        res@.len() > 1 ==> res@[0] as int != 48,
{
    lemma_number_of(n as nat);
    text::lemma_decimal_digits(n as nat);
}

proof fn lemma_number_of(n: nat)
    ensures
        number_of(text::decimal(n)) == n,
        text::decimal(n).len() > 1 ==> n > 0,
    decreases n,
{
    reveal_with_fuel(number_of, 2);
    if n >= 10 {
        lemma_number_of(n / 10);
        assert(text::decimal(n).drop_last() =~= text::decimal(n / 10));
    } else {
        assert(text::decimal(n).drop_last() =~= Seq::<char>::empty());
    }
}

/// Texts are equal just if they have the same characters, and lists of texts just if they have the
/// same texts.
pub proof fn law_equal(
    a: &str,
    b: &str,
    x: &Vec<String>,
    y: &Vec<String>,
    texts: bool,
    lists: bool,
)
    requires
        call_ensures(text::equal, (a, b), texts),
        call_ensures(text::equal_lists, (x, y), lists),
    ensures
        texts <==> a@.len() == b@.len() && forall|i: int|
            0 <= i < a@.len() ==> #[trigger] a@[i] == b@[i],
        lists <==> x@.len() == y@.len() && forall|i: int|
            0 <= i < x@.len() ==> (#[trigger] x@[i])@ == y@[i]@,
{
    if a@.len() == b@.len() && (forall|i: int| 0 <= i < a@.len() ==> #[trigger] a@[i] == b@[i]) {
        assert(a@ =~= b@);
    }
    let (p, q) = (text::texts(x@), text::texts(y@));
    assert(p.len() == x@.len() && q.len() == y@.len());
    if lists {
        assert forall|i: int| 0 <= i < x@.len() implies (#[trigger] x@[i])@ == y@[i]@ by {
            assert(p[i] == x@[i]@ && q[i] == y@[i]@);
        }
    }
    if x@.len() == y@.len() && (forall|i: int|
        0 <= i < x@.len() ==> (#[trigger] x@[i])@ == y@[i]@) {
        assert forall|i: int| 0 <= i < p.len() implies p[i] == q[i] by {
            assert(p[i] == x@[i]@ && q[i] == y@[i]@);
        }
        assert(p =~= q);
    }
}

/// Copies hold what was copied.
pub proof fn law_copies(
    s: &str,
    list: &Vec<String>,
    start: usize,
    end: usize,
    option: &Option<String>,
    chars: Vec<char>,
    part: Vec<String>,
    tail: Vec<String>,
    copied: Option<String>,
    i: int,
)
    requires
        start <= end <= list@.len(),
        call_ensures(text::chars_of, (s,), chars),
        call_ensures(text::copy_range, (list, start, end), part),
        call_ensures(text::copy_from, (list, start), tail),
        call_ensures(text::copy_option, (option,), copied),
    ensures
        chars@ == s@,
        part@.len() == end - start,
        0 <= i < end - start ==> part@[i]@ == list@[start + i]@,
        tail@.len() == list@.len() - start,
        0 <= i < list@.len() - start ==> tail@[i]@ == list@[start + i]@,
        copied == *option,
{
    let (all, p, t) = (text::texts(list@), text::texts(part@), text::texts(tail@));
    assert(all.len() == list@.len() && p.len() == part@.len() && t.len() == tail@.len());
    if 0 <= i < end - start {
        assert(p[i] == part@[i]@ && all[start + i] == list@[start + i]@);
    }
    if 0 <= i < list@.len() - start {
        assert(t[i] == tail@[i]@ && all[start + i] == list@[start + i]@);
    }
}

} // verus!
