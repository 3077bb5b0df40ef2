//! Texts: splitting, trimming, searching and writing numbers.
//!
//! A text is modelled by the sequence of its characters.
use vstd::prelude::*;
use vstd::string::*;

verus! {

/// What parts one piece of a text from the next.
#[derive(Clone, Copy, PartialEq, Eq, Structural)]
pub enum Separator {
    /// One given character
    Char(char),
    /// Any white space character
    WhiteSpace,
}

/// The characters with the Unicode property `White_Space`.
pub open spec fn is_white_space(c: char) -> bool {
    ||| '\u{9}' <= c <= '\u{d}'
    ||| c == ' '
    ||| c == '\u{85}'
    ||| c == '\u{a0}'
    ||| c == '\u{1680}'
    ||| '\u{2000}' <= c <= '\u{200a}'
    ||| c == '\u{2028}'
    ||| c == '\u{2029}'
    ||| c == '\u{202f}'
    ||| c == '\u{205f}'
    ||| c == '\u{3000}'
}

/// Whether the character has the Unicode property `White_Space`.
pub fn white_space(c: char) -> (res: bool)
    ensures
        res == is_white_space(c),
{
    ('\u{9}' <= c && c <= '\u{d}') || c == ' ' || c == '\u{85}' || c == '\u{a0}' || c == '\u{1680}'
        || ('\u{2000}' <= c && c <= '\u{200a}') || c == '\u{2028}' || c == '\u{2029}' || c
        == '\u{202f}' || c == '\u{205f}' || c == '\u{3000}'
}

impl Separator {
    pub open spec fn holds(self, c: char) -> bool {
        match self {
            Separator::Char(sep) => c == sep,
            Separator::WhiteSpace => is_white_space(c),
        }
    }

    fn matches(self, c: char) -> (res: bool)
        ensures
            res == self.holds(c),
    {
        match self {
            Separator::Char(sep) => c == sep,
            Separator::WhiteSpace => white_space(c),
        }
    }
}

/// The texts that a sequence of strings holds.
pub open spec fn texts(strings: Seq<String>) -> Seq<Seq<char>> {
    strings.map_values(|s: String| s@)
}

/// The text that an optional string holds.
pub open spec fn opt_text(s: Option<String>) -> Option<Seq<char>> {
    match s {
        Some(s) => Some(s@),
        None => None,
    }
}

/// Copies an optional string.
pub fn copy_option(s: &Option<String>) -> (res: Option<String>)
    ensures
        res == *s,
{
    match s {
        Some(s) => Some(s.clone()),
        None => None,
    }
}

/// The pieces between the separators, from left to right.
///
/// There is one piece more than there are separators; a piece may be empty.
pub open spec fn pieces(s: Seq<char>, sep: Separator) -> Seq<Seq<char>>
    decreases s.len(),
{
    if s.len() == 0 {
        seq![Seq::<char>::empty()]
    } else {
        let before = pieces(s.drop_last(), sep);
        if sep.holds(s.last()) {
            before.push(Seq::empty())
        } else {
            before.drop_last().push(before.last().push(s.last()))
        }
    }
}

/// The characters of a text.
pub fn chars_of(s: &str) -> (chars: Vec<char>)
    ensures
        chars@ == s@,
{
    let mut chars: Vec<char> = Vec::new();
    for c in it: s.chars()
        invariant
            it.seq() == s@,
            chars@ == s@.take(it.index() as int),
    {
        assert(s@.take(it.index() + 1) =~= s@.take(it.index() as int).push(c));
        chars.push(c);
    }
    assert(s@.take(s@.len() as int) =~= s@);
    chars
}

/// Whether two texts are equal.
pub fn equal(a: &str, b: &str) -> (res: bool)
    ensures
        res == (a@ == b@),
{
    let x = chars_of(a);
    let y = chars_of(b);
    if x.len() != y.len() {
        return false;
    }
    let mut i: usize = 0;
    while i < x.len()
        invariant
            x@ == a@,
            y@ == b@,
            i <= x.len() == y.len(),
            x@.take(i as int) == y@.take(i as int),
        decreases x.len() - i,
    {
        if x[i] != y[i] {
            return false;
        }
        assert(x@.take(i + 1) =~= x@.take(i as int).push(x@[i as int]));
        assert(y@.take(i + 1) =~= y@.take(i as int).push(y@[i as int]));
        i = i + 1;
    }
    assert(x@.take(i as int) =~= x@);
    assert(y@.take(i as int) =~= y@);
    true
}

/// Whether two lists hold equal texts in the same order.
pub fn equal_lists(a: &Vec<String>, b: &Vec<String>) -> (res: bool)
    ensures
        res == (texts(a@) == texts(b@)),
{
    let ghost x = texts(a@);
    let ghost y = texts(b@);
    assert(x.len() == a.len() && y.len() == b.len());
    if a.len() != b.len() {
        return false;
    }
    let mut i: usize = 0;
    while i < a.len()
        invariant
            x == texts(a@),
            y == texts(b@),
            i <= a.len() == b.len(),
            forall|k: int| 0 <= k < i ==> #[trigger] x[k] == y[k],
        decreases a.len() - i,
    {
        assert(a@[i as int]@ == x[i as int] && b@[i as int]@ == y[i as int]);
        if !equal(a[i].as_str(), b[i].as_str()) {
            return false;
        }
        i = i + 1;
    }
    assert(x =~= y);
    true
}

/// Copies the strings of a list between two places.
pub fn copy_range(list: &Vec<String>, start: usize, end: usize) -> (res: Vec<String>)
    requires
        start <= end <= list.len(),
    ensures
        texts(res@) == texts(list@).subrange(start as int, end as int),
{
    let ghost all = texts(list@);
    let mut res: Vec<String> = Vec::new();
    let mut i: usize = start;
    assert(all.len() == list.len());
    while i < end
        invariant
            all == texts(list@),
            all.len() == list.len(),
            start <= i <= end <= list.len(),
            texts(res@) =~= all.subrange(start as int, i as int),
        decreases end - i,
    {
        let ghost old_res = texts(res@);
        let item: String = list[i].clone();
        res.push(item);
        assert(texts(res@) =~= old_res.push(item@));
        assert(item@ == all[i as int]);
        i = i + 1;
    }
    res
}

/// Copies a list of strings from the given place on.
pub fn copy_from(list: &Vec<String>, start: usize) -> (res: Vec<String>)
    requires
        start <= list.len(),
    ensures
        texts(res@) == texts(list@).skip(start as int),
{
    let res = copy_range(list, start, list.len());
    assert(texts(list@).len() == list.len());
    assert(texts(res@) =~= texts(list@).skip(start as int));
    res
}

/// Splitting a text gives at least one piece.
pub proof fn lemma_pieces_not_empty(s: Seq<char>, sep: Separator)
    ensures
        pieces(s, sep).len() > 0,
    decreases s.len(),
{
    if s.len() > 0 {
        lemma_pieces_not_empty(s.drop_last(), sep);
    }
}

/// Splits a text at each separator.
pub fn split(s: &str, sep: Separator) -> (parts: Vec<String>)
    ensures
        texts(parts@) == pieces(s@, sep),
{
    let chars = chars_of(s);
    let mut parts: Vec<String> = Vec::new();
    let mut start: usize = 0;
    let mut i: usize = 0;
    assert(s@.take(0) =~= Seq::<char>::empty());
    assert(s@.subrange(0, 0) =~= Seq::<char>::empty());
    assert(texts(parts@) =~= Seq::<Seq<char>>::empty());
    while i < chars.len()
        invariant
            chars@ == s@,
            start <= i <= chars.len(),
            texts(parts@).push(s@.subrange(start as int, i as int)) =~= pieces(
                s@.take(i as int),
                sep,
            ),
        decreases chars.len() - i,
    {
        let ghost before = pieces(s@.take(i as int), sep);
        let ghost old_texts = texts(parts@);
        assert(s@.take(i + 1).drop_last() =~= s@.take(i as int));
        if sep.matches(chars[i]) {
            let part: String = s.substring_char(start, i).to_string();
            parts.push(part);
            assert(texts(parts@) =~= old_texts.push(part@));
            start = i + 1;
            assert(s@.subrange(start as int, i + 1) =~= Seq::<char>::empty());
        } else {
            assert(s@.subrange(start as int, i + 1) =~= s@.subrange(start as int, i as int).push(
                s@[i as int],
            ));
            assert(before.drop_last() =~= old_texts);
        }
        i = i + 1;
    }
    let last: String = s.substring_char(start, chars.len()).to_string();
    let ghost old_texts = texts(parts@);
    parts.push(last);
    assert(texts(parts@) =~= old_texts.push(last@));
    assert(s@.take(s@.len() as int) =~= s@);
    parts
}

/// Splitting at a separator between two texts splits each of them.
pub proof fn lemma_pieces_of_joined(a: Seq<char>, c: char, b: Seq<char>, sep: Separator)
    requires
        sep.holds(c),
    ensures
        pieces(a.push(c) + b, sep) == pieces(a, sep) + pieces(b, sep),
    decreases b.len(),
{
    lemma_pieces_not_empty(a, sep);
    lemma_pieces_not_empty(b, sep);
    let whole = a.push(c) + b;
    if b.len() == 0 {
        assert(whole =~= a.push(c));
        assert(whole.drop_last() =~= a);
        assert(pieces(b, sep) =~= seq![Seq::<char>::empty()]);
    } else {
        lemma_pieces_of_joined(a, c, b.drop_last(), sep);
        lemma_pieces_not_empty(b.drop_last(), sep);
        assert(whole.drop_last() =~= a.push(c) + b.drop_last());
        assert(whole.last() == b.last());
        let left = pieces(a, sep);
        let right = pieces(b.drop_last(), sep);
        if !sep.holds(b.last()) {
            assert((left + right).drop_last() =~= left + right.drop_last());
        }
    }
}

/// A text without separators is its own single piece.
pub proof fn lemma_pieces_of_one(s: Seq<char>, sep: Separator)
    requires
        forall|i: int| 0 <= i < s.len() ==> !sep.holds(#[trigger] s[i]),
    ensures
        pieces(s, sep) == seq![s],
    decreases s.len(),
{
    if s.len() == 0 {
        assert(s =~= Seq::empty());
    } else {
        let rest = s.drop_last();
        assert forall|i: int| 0 <= i < rest.len() implies !sep.holds(#[trigger] rest[i]) by {
            assert(rest[i] == s[i]);
        }
        lemma_pieces_of_one(rest, sep);
        assert(rest.push(s.last()) =~= s);
        assert(!sep.holds(s[s.len() - 1]));
        assert(seq![rest].drop_last().push(rest.push(s.last())) =~= seq![s]);
    }
}

/// No piece holds a separator.
pub proof fn lemma_pieces_hold_no_separator(s: Seq<char>, sep: Separator, i: int, j: int)
    requires
        0 <= i < pieces(s, sep).len(),
        0 <= j < pieces(s, sep)[i].len(),
    ensures
        !sep.holds(pieces(s, sep)[i][j]),
    decreases s.len(),
{
    if s.len() > 0 {
        let before = pieces(s.drop_last(), sep);
        lemma_pieces_not_empty(s.drop_last(), sep);
        if i < before.len() && j < before[i].len() {
            lemma_pieces_hold_no_separator(s.drop_last(), sep, i, j);
        }
    }
}

/// Each character that is no separator stands in a piece.
pub proof fn lemma_char_in_pieces(s: Seq<char>, sep: Separator, at: int)
    requires
        0 <= at < s.len(),
        !sep.holds(s[at]),
    ensures
        exists|i: int, j: int|
            0 <= i < pieces(s, sep).len() && 0 <= j < pieces(s, sep)[i].len() && pieces(
                s,
                sep,
            )[i][j] == s[at],
    decreases s.len(),
{
    let front = s.drop_last();
    let before = pieces(front, sep);
    let all = pieces(s, sep);
    lemma_pieces_not_empty(front, sep);
    if at == s.len() - 1 {
        let i = all.len() - 1;
        let j = all[i].len() - 1;
        assert(all[i][j] == s[at]);
    } else {
        lemma_char_in_pieces(front, sep, at);
        let (i, j) = choose|i: int, j: int|
            0 <= i < before.len() && 0 <= j < before[i].len() && before[i][j] == front[at];
        assert(all[i][j] == s[at]);
    }
}

/// The text without white space at its start.
pub open spec fn trim_start(s: Seq<char>) -> Seq<char>
    decreases s.len(),
{
    if s.len() > 0 && is_white_space(s[0]) {
        trim_start(s.drop_first())
    } else {
        s
    }
}

/// The text without white space at its end.
pub open spec fn trim_end(s: Seq<char>) -> Seq<char>
    decreases s.len(),
{
    if s.len() > 0 && is_white_space(s.last()) {
        trim_end(s.drop_last())
    } else {
        s
    }
}

/// The text without white space at its start and its end.
pub open spec fn trim(s: Seq<char>) -> Seq<char> {
    trim_start(trim_end(s))
}

/// Removes the white space at the start and the end of a text.
pub fn trimmed(s: &str) -> (res: String)
    ensures
        res@ == trim(s@),
{
    let chars = chars_of(s);
    let mut end: usize = chars.len();
    assert(s@.take(end as int) =~= s@);
    while end > 0 && white_space(chars[end - 1])
        invariant
            chars@ == s@,
            end <= chars.len(),
            trim_end(s@.take(end as int)) == trim_end(s@),
        decreases end,
    {
        assert(s@.take(end as int).drop_last() =~= s@.take(end - 1));
        end = end - 1;
    }
    assert(s@.take(end as int) == trim_end(s@));
    let mut start: usize = 0;
    assert(s@.subrange(0, end as int) =~= s@.take(end as int));
    while start < end && white_space(chars[start])
        invariant
            chars@ == s@,
            start <= end <= chars.len(),
            trim_start(s@.subrange(start as int, end as int)) == trim(s@),
        decreases end - start,
    {
        assert(s@.subrange(start as int, end as int).drop_first() =~= s@.subrange(
            start + 1,
            end as int,
        ));
        start = start + 1;
    }
    s.substring_char(start, end).to_string()
}

/// The text without its last character, if that is a carriage return.
pub open spec fn without_carriage_return(s: Seq<char>) -> Seq<char> {
    if s.len() > 0 && s.last() == '\r' {
        s.drop_last()
    } else {
        s
    }
}

/// The lines of a text.
///
/// A line ends at a line feed, or at a carriage return with a line feed behind it. What
/// follows the last line feed is a line if it is not empty.
pub open spec fn lines(s: Seq<char>) -> Seq<Seq<char>> {
    let parts = pieces(s, Separator::Char('\n'));
    let ended = parts.drop_last().map_values(|line: Seq<char>| without_carriage_return(line));
    if parts.last().len() == 0 {
        ended
    } else {
        ended.push(parts.last())
    }
}

/// Splits a text into its lines.
pub fn split_lines(s: &str) -> (res: Vec<String>)
    ensures
        texts(res@) == lines(s@),
{
    let parts = split(s, Separator::Char('\n'));
    let ghost all = pieces(s@, Separator::Char('\n'));
    proof {
        lemma_pieces_not_empty(s@, Separator::Char('\n'));
        assert(texts(parts@).len() == parts.len());
    }
    let mut res: Vec<String> = Vec::new();
    let mut i: usize = 0;
    while i < parts.len() - 1
        invariant
            parts.len() > 0,
            texts(parts@) == all,
            i <= parts.len() - 1,
            res.len() == i,
            forall|k: int|
                0 <= k < i ==> (#[trigger] res@[k])@ == without_carriage_return(all[k]),
        decreases parts.len() - i,
    {
        let line = parts[i].as_str();
        assert(line@ == all[i as int]);
        let n: usize = line.unicode_len();
        if n > 0 && line.get_char(n - 1) == '\r' {
            assert(line@.subrange(0, n - 1) =~= line@.drop_last());
            res.push(line.substring_char(0, n - 1).to_string());
        } else {
            res.push(line.to_string());
        }
        i = i + 1;
    }
    let last = parts[parts.len() - 1].as_str();
    assert(last@ == all.last());
    if !last.is_empty() {
        res.push(last.to_string());
    }
    assert(texts(res@) =~= lines(s@));
    res
}

/// The words of a text: what stands between white space.
pub open spec fn words(s: Seq<char>) -> Seq<Seq<char>> {
    pieces(s, Separator::WhiteSpace).filter(|w: Seq<char>| w.len() > 0)
}

/// Splits a text into its words.
pub fn split_words(s: &str) -> (res: Vec<String>)
    ensures
        texts(res@) == words(s@),
{
    let parts = split(s, Separator::WhiteSpace);
    let ghost all = pieces(s@, Separator::WhiteSpace);
    let ghost keep = |w: Seq<char>| w.len() > 0;
    let mut res: Vec<String> = Vec::new();
    proof {
        assert(texts(parts@).len() == parts.len());
        assert(all.take(0) =~= Seq::<Seq<char>>::empty());
        reveal(Seq::filter);
        assert(texts(res@) =~= all.take(0).filter(keep));
    }
    let mut i: usize = 0;
    while i < parts.len()
        invariant
            texts(parts@) == all,
            all.len() == parts.len(),
            keep == |w: Seq<char>| w.len() > 0,
            i <= parts.len(),
            texts(res@) == all.take(i as int).filter(keep),
        decreases parts.len() - i,
    {
        let ghost old_res = texts(res@);
        let part = parts[i].as_str();
        assert(part@ == all[i as int]);
        proof {
            reveal(Seq::filter);
            assert(all.take(i + 1).drop_last() =~= all.take(i as int));
        }
        if !part.is_empty() {
            let word: String = part.to_string();
            res.push(word);
            assert(texts(res@) =~= old_res.push(word@));
        }
        i = i + 1;
    }
    assert(all.take(all.len() as int) =~= all);
    res
}

/// Whether the text begins with the prefix.
pub open spec fn starts_with(s: Seq<char>, prefix: Seq<char>) -> bool {
    prefix.len() <= s.len() && s.take(prefix.len() as int) == prefix
}

/// Whether the text ends with the suffix.
pub open spec fn ends_with(s: Seq<char>, suffix: Seq<char>) -> bool {
    suffix.len() <= s.len() && s.skip(s.len() - suffix.len()) == suffix
}

/// Whether one text stands at the given place of another.
fn matches_at(chars: &Vec<char>, at: usize, part: &Vec<char>) -> (res: bool)
    requires
        at <= chars.len(),
    ensures
        res == starts_with(chars@.skip(at as int), part@),
{
    if part.len() > chars.len() - at {
        return false;
    }
    let mut i: usize = 0;
    while i < part.len()
        invariant
            i <= part.len() <= chars.len() - at,
            forall|k: int| 0 <= k < i ==> chars@[at + k] == #[trigger] part@[k],
        decreases part.len() - i,
    {
        if chars[at + i] != part[i] {
            assert(chars@.skip(at as int).take(part.len() as int)[i as int] != part@[i as int]);
            return false;
        }
        i = i + 1;
    }
    assert(chars@.skip(at as int).take(part.len() as int) =~= part@);
    true
}

/// Whether the text begins with the prefix.
pub fn has_prefix(s: &str, prefix: &str) -> (res: bool)
    ensures
        res == starts_with(s@, prefix@),
{
    let chars = chars_of(s);
    assert(chars@.skip(0) =~= s@);
    matches_at(&chars, 0, &chars_of(prefix))
}

/// Whether the text ends with the suffix.
pub fn has_suffix(s: &str, suffix: &str) -> (res: bool)
    ensures
        res == ends_with(s@, suffix@),
{
    let chars = chars_of(s);
    let tail = chars_of(suffix);
    if tail.len() > chars.len() {
        return false;
    }
    let at: usize = chars.len() - tail.len();
    assert(s@.skip(at as int).take(suffix@.len() as int) =~= s@.skip(at as int));
    matches_at(&chars, at, &tail)
}

/// The text with the prefix taken off, or nothing if it does not begin with it.
pub fn without_prefix(s: &str, prefix: &str) -> (res: Option<String>)
    ensures
        opt_text(res) == (if starts_with(s@, prefix@) {
            Some(s@.skip(prefix@.len() as int))
        } else {
            None
        }),
{
    if has_prefix(s, prefix) {
        let n: usize = s.unicode_len();
        assert(s@.subrange(prefix@.len() as int, n as int) =~= s@.skip(prefix@.len() as int));
        Some(s.substring_char(prefix.unicode_len(), n).to_string())
    } else {
        None
    }
}

/// The text with the prefix taken off as often as it stands at the start.
pub open spec fn without_prefixes(s: Seq<char>, prefix: Seq<char>) -> Seq<char>
    decreases s.len(),
{
    if prefix.len() > 0 && starts_with(s, prefix) {
        without_prefixes(s.skip(prefix.len() as int), prefix)
    } else {
        s
    }
}

/// Takes the prefix off as often as it stands at the start.
pub fn strip_prefixes(s: &str, prefix: &str) -> (res: String)
    ensures
        res@ == without_prefixes(s@, prefix@),
{
    let chars = chars_of(s);
    let part = chars_of(prefix);
    let mut at: usize = 0;
    assert(s@.skip(0) =~= s@);
    while part.len() > 0 && matches_at(&chars, at, &part)
        invariant
            chars@ == s@,
            part@ == prefix@,
            at <= chars.len(),
            without_prefixes(s@.skip(at as int), prefix@) == without_prefixes(s@, prefix@),
        decreases chars.len() - at,
    {
        assert(s@.skip(at as int).skip(part.len() as int) =~= s@.skip(at + part.len()));
        at = at + part.len();
    }
    assert(s@.subrange(at as int, s@.len() as int) =~= s@.skip(at as int));
    s.substring_char(at, chars.len()).to_string()
}

/// The text with each occurrence of `from`, taken from left to right, replaced.
pub open spec fn replaced(s: Seq<char>, from: Seq<char>, to: Seq<char>) -> Seq<char>
    decreases s.len(),
{
    if s.len() == 0 || from.len() == 0 {
        s
    } else if starts_with(s, from) {
        to + replaced(s.skip(from.len() as int), from, to)
    } else {
        seq![s[0]] + replaced(s.drop_first(), from, to)
    }
}

/// Replaces each occurrence of `from`, taken from left to right.
pub fn replace_all(s: &str, from: &str, to: &str) -> (res: String)
    requires
        from@.len() > 0,
    ensures
        res@ == replaced(s@, from@, to@),
{
    let chars = chars_of(s);
    let part = chars_of(from);
    let mut res = String::new();
    let mut at: usize = 0;
    assert(s@.skip(0) =~= s@);
    while at < chars.len()
        invariant
            chars@ == s@,
            part@ == from@,
            from@.len() > 0,
            at <= chars.len(),
            res@ + replaced(s@.skip(at as int), from@, to@) =~= replaced(s@, from@, to@),
        decreases chars.len() - at,
    {
        if matches_at(&chars, at, &part) {
            assert(s@.skip(at as int).skip(part.len() as int) =~= s@.skip(at + part.len()));
            res.append(to);
            at = at + part.len();
        } else {
            assert(s@.skip(at as int).drop_first() =~= s@.skip(at + 1));
            assert(s@.subrange(at as int, at + 1) =~= seq![s@.skip(at as int)[0]]);
            res.append(s.substring_char(at, at + 1));
            at = at + 1;
        }
    }
    assert(s@.skip(at as int) =~= Seq::<char>::empty());
    res
}

/// The parts, one behind the other, with a separator between each two.
pub open spec fn joined(parts: Seq<Seq<char>>, sep: Seq<char>) -> Seq<char>
    decreases parts.len(),
{
    if parts.len() == 0 {
        Seq::empty()
    } else if parts.len() == 1 {
        parts[0]
    } else {
        joined(parts.drop_last(), sep) + sep + parts.last()
    }
}

/// Joins the parts with a separator between each two.
pub fn join(parts: &Vec<String>, sep: &str) -> (res: String)
    ensures
        res@ == joined(texts(parts@), sep@),
{
    let ghost all = texts(parts@);
    let mut res = String::new();
    let mut i: usize = 0;
    assert(all.len() == parts.len());
    while i < parts.len()
        invariant
            all == texts(parts@),
            all.len() == parts.len(),
            i <= parts.len(),
            res@ == joined(all.take(i as int), sep@),
        decreases parts.len() - i,
    {
        assert(all.take(i + 1).drop_last() =~= all.take(i as int));
        if i > 0 {
            res.append(sep);
        }
        res.append(parts[i].as_str());
        i = i + 1;
        if i == 1 {
            assert(res@ =~= all.take(1)[0]);
        }
    }
    assert(all.take(all.len() as int) =~= all);
    res
}

/// The digit of a number below ten.
pub open spec fn digit(d: nat) -> char {
    if d == 0 {
        '0'
    } else if d == 1 {
        '1'
    } else if d == 2 {
        '2'
    } else if d == 3 {
        '3'
    } else if d == 4 {
        '4'
    } else if d == 5 {
        '5'
    } else if d == 6 {
        '6'
    } else if d == 7 {
        '7'
    } else if d == 8 {
        '8'
    } else {
        '9'
    }
}

/// A number in decimal notation.
pub open spec fn decimal(n: nat) -> Seq<char>
    decreases n,
{
    if n < 10 {
        seq![digit(n)]
    } else {
        decimal(n / 10).push(digit(n % 10))
    }
}

fn digit_text(d: u128) -> (res: &'static str)
    requires
        d < 10,
    ensures
        res@ == seq![digit(d as nat)],
{
    proof {
        reveal_strlit("0");
        reveal_strlit("1");
        reveal_strlit("2");
        reveal_strlit("3");
        reveal_strlit("4");
        reveal_strlit("5");
        reveal_strlit("6");
        reveal_strlit("7");
        reveal_strlit("8");
        reveal_strlit("9");
    }
    let res = if d == 0 {
        "0"
    } else if d == 1 {
        "1"
    } else if d == 2 {
        "2"
    } else if d == 3 {
        "3"
    } else if d == 4 {
        "4"
    } else if d == 5 {
        "5"
    } else if d == 6 {
        "6"
    } else if d == 7 {
        "7"
    } else if d == 8 {
        "8"
    } else {
        "9"
    };
    assert(res@ =~= seq![digit(d as nat)]);
    res
}

/// Writes a number in decimal notation.
pub fn decimal_text(n: u128) -> (res: String)
    ensures
        res@ == decimal(n as nat),
    decreases n,
{
    if n < 10 {
        digit_text(n).to_string()
    } else {
        let mut res = decimal_text(n / 10);
        res.append(digit_text(n % 10));
        assert(res@ =~= decimal((n / 10) as nat).push(digit((n % 10) as nat)));
        res
    }
}

/// Whether the character is a decimal digit.
pub open spec fn is_digit(c: char) -> bool {
    '0' <= c <= '9'
}

spec fn digits_value(s: Seq<char>) -> int
    decreases s.len(),
{
    if s.len() == 0 {
        0
    } else {
        digits_value(s.drop_last()) * 10 + (s.last() as int - '0' as int)
    }
}

/// Decimal notation consists of digits, and begins with a zero only for zero itself.
pub proof fn lemma_decimal_digits(n: nat)
    ensures
        decimal(n).len() > 0,
        forall|i: int| 0 <= i < decimal(n).len() ==> is_digit(#[trigger] decimal(n)[i]),
        decimal(n)[0] == '0' ==> n == 0,
    decreases n,
{
    if n >= 10 {
        lemma_decimal_digits(n / 10);
    }
}

proof fn lemma_decimal_value(n: nat)
    ensures
        digits_value(decimal(n)) == n,
    decreases n,
{
    reveal_with_fuel(digits_value, 2);
    if n >= 10 {
        lemma_decimal_value(n / 10);
        assert(decimal(n).drop_last() =~= decimal(n / 10));
    } else {
        assert(decimal(n).drop_last() =~= Seq::<char>::empty());
    }
}

/// Different numbers are written differently.
pub proof fn lemma_decimal_injective(m: nat, n: nat)
    requires
        decimal(m) == decimal(n),
    ensures
        m == n,
{
    lemma_decimal_value(m);
    lemma_decimal_value(n);
}

} // verus!
