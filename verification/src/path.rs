//! Paths by the rules of Unix.
//!
//! A path is a text, and `/` is the only separator: a `\\` is a character like any other, and
//! there are no prefixes such as `C:`. These are the rules of `std::path` on the systems that
//! `zksolc` is there for, Linux and macOS. On Windows `\\` parts paths too; nothing here finds out
//! about that, so a caller says where it is so, and has each `\\` written as `/` (see [`slash()`]).
//!
//! Two paths are the same where their components are: repeated separators, a separator at the end
//! and a `.` that is not the first component make no difference, `..` is a component like any
//! other.
use crate::text;
use crate::text::{chars_of, Separator};
use vstd::prelude::*;
use vstd::string::*;

verus! {

/// The component of the root directory.
pub open spec fn root_dir() -> Seq<char> {
    seq!['/']
}

/// The component of the current directory.
pub open spec fn cur_dir() -> Seq<char> {
    seq!['.']
}

/// The component of the parent directory.
pub open spec fn parent_dir() -> Seq<char> {
    seq!['.', '.']
}

/// Whether a component names a file or a directory.
pub open spec fn is_normal(component: Seq<char>) -> bool {
    component != root_dir() && component != cur_dir() && component != parent_dir()
}

/// Whether what stands between two separators is a component of its own.
pub open spec fn is_name(part: Seq<char>) -> bool {
    part.len() > 0 && part != cur_dir()
}

/// What stands between the separators of a path.
pub open spec fn parts(path: Seq<char>) -> Seq<Seq<char>> {
    text::pieces(path, Separator::Char('/'))
}

/// The components of a path, but for the root directory and a current directory in front.
pub open spec fn names(path: Seq<char>) -> Seq<Seq<char>> {
    parts(path).filter(|part: Seq<char>| is_name(part))
}

/// Whether a path begins at the root directory.
pub open spec fn is_absolute(path: Seq<char>) -> bool {
    path.len() > 0 && path[0] == '/'
}

/// The components of a path.
pub open spec fn components(path: Seq<char>) -> Seq<Seq<char>> {
    if is_absolute(path) {
        seq![root_dir()] + names(path)
    } else if parts(path)[0] == cur_dir() {
        seq![cur_dir()] + names(path)
    } else {
        names(path)
    }
}

/// Whether two paths are the same.
pub open spec fn same_path(a: Seq<char>, b: Seq<char>) -> bool {
    components(a) == components(b)
}

/// A path that has the given components.
pub open spec fn path_text(components: Seq<Seq<char>>) -> Seq<char> {
    if components.len() > 0 && components[0] == root_dir() {
        root_dir() + text::joined(components.skip(1), seq!['/'])
    } else {
        text::joined(components, seq!['/'])
    }
}

/// The last component, where it names a file or a directory.
pub open spec fn file_name(path: Seq<char>) -> Option<Seq<char>> {
    let all = components(path);
    if all.len() > 0 && is_normal(all.last()) {
        Some(all.last())
    } else {
        None
    }
}

/// The place of the last dot, or -1.
pub open spec fn last_dot(name: Seq<char>) -> int
    decreases name.len(),
{
    if name.len() == 0 {
        -1
    } else if name.last() == '.' {
        name.len() - 1
    } else {
        last_dot(name.drop_last())
    }
}

/// A file name up to its last dot; all of it where the only dot is in front.
pub open spec fn stem_of(name: Seq<char>) -> Seq<char> {
    if last_dot(name) > 0 {
        name.take(last_dot(name))
    } else {
        name
    }
}

/// A file name behind its last dot, unless the only dot is in front.
pub open spec fn extension_of(name: Seq<char>) -> Option<Seq<char>> {
    if last_dot(name) > 0 {
        Some(name.skip(last_dot(name) + 1))
    } else {
        None
    }
}

/// The file name of a path without its extension.
pub open spec fn file_stem(path: Seq<char>) -> Option<Seq<char>> {
    match file_name(path) {
        Some(name) => Some(stem_of(name)),
        None => None,
    }
}

/// The extension of a path's file name.
pub open spec fn extension(path: Seq<char>) -> Option<Seq<char>> {
    match file_name(path) {
        Some(name) => extension_of(name),
        None => None,
    }
}

/// The path that `path` is when it starts at `base`.
pub open spec fn join_path(base: Seq<char>, path: Seq<char>) -> Seq<char> {
    if is_absolute(path) || base.len() == 0 {
        path
    } else if base.last() == '/' {
        base + path
    } else {
        base.push('/') + path
    }
}

/// Whether the components of `base` are the first ones of `path`.
pub open spec fn is_under(path: Seq<char>, base: Seq<char>) -> bool {
    components(base).is_prefix_of(components(path))
}

/// The parts behind the first names.
pub open spec fn behind(list: Seq<Seq<char>>, count: nat) -> Seq<Seq<char>>
    decreases list.len(),
{
    if count == 0 || list.len() == 0 {
        list
    } else if is_name(list[0]) {
        behind(list.drop_first(), (count - 1) as nat)
    } else {
        behind(list.drop_first(), count)
    }
}

/// The parts from the first name on.
pub open spec fn from_first_name(list: Seq<Seq<char>>) -> Seq<Seq<char>>
    decreases list.len(),
{
    if list.len() > 0 && !is_name(list[0]) {
        from_first_name(list.drop_first())
    } else {
        list
    }
}

/// The parts up to the last name.
pub open spec fn up_to_last_name(list: Seq<Seq<char>>) -> Seq<Seq<char>>
    decreases list.len(),
{
    if list.len() > 0 && !is_name(list.last()) {
        up_to_last_name(list.drop_last())
    } else {
        list
    }
}

/// The path as it is written, without what follows its last component.
pub open spec fn without_tail(path: Seq<char>) -> Seq<char> {
    let list = parts(path).take(1) + up_to_last_name(parts(path).skip(1));
    if is_absolute(path) && list.len() == 1 {
        root_dir()
    } else {
        text::joined(list, seq!['/'])
    }
}

/// What is written behind the components of `base`, from the next component to the last one.
pub open spec fn rest_behind(path: Seq<char>, base: Seq<char>) -> Seq<char> {
    if base.len() == 0 {
        without_tail(path)
    } else {
        text::joined(
            up_to_last_name(from_first_name(behind(parts(path), names(base).len()))),
            seq!['/'],
        )
    }
}

/// The path without the components of `base`, where it begins with them. What is left is written
/// as it was.
pub open spec fn stripped(path: Seq<char>, base: Seq<char>) -> Option<Seq<char>> {
    if is_under(path, base) {
        Some(rest_behind(path, base))
    } else {
        None
    }
}

/// The components of a path.
pub fn split_path(path: &str) -> (res: Vec<String>)
    ensures
        text::texts(res@) == components(path@),
{
    proof {
        reveal_strlit("/");
        reveal_strlit(".");
        text::lemma_pieces_not_empty(path@, Separator::Char('/'));
    }
    let all = text::split(path, Separator::Char('/'));
    let ghost keep = |part: Seq<char>| is_name(part);
    let ghost whole = parts(path@);
    assert(text::texts(all@).len() == all.len());
    assert("/"@ =~= root_dir());
    assert("."@ =~= cur_dir());
    let mut res: Vec<String> = Vec::new();
    if !path.is_empty() && path.get_char(0) == '/' {
        res.push("/".to_string());
    } else {
        assert(all@[0]@ == whole[0]);
        if text::equal(all[0].as_str(), ".") {
            res.push(".".to_string());
        }
    }
    let ghost front = text::texts(res@);
    assert(front =~= seq![root_dir()] || front =~= seq![cur_dir()] || front =~= Seq::<
        Seq<char>,
    >::empty());
    assert(front + names(path@) =~= components(path@));
    proof {
        reveal(Seq::filter);
        assert(front + whole.take(0).filter(keep) =~= front);
    }
    let mut i: usize = 0;
    while i < all.len()
        invariant
            "."@ == cur_dir(),
            text::texts(all@) == whole,
            whole.len() == all.len(),
            keep == |part: Seq<char>| is_name(part),
            i <= all.len(),
            text::texts(res@) == front + whole.take(i as int).filter(keep),
        decreases all.len() - i,
    {
        let part = all[i].as_str();
        assert(part@ == whole[i as int]);
        proof {
            reveal(Seq::filter);
            assert(whole.take(i + 1).drop_last() =~= whole.take(i as int));
        }
        if !part.is_empty() && !text::equal(part, ".") {
            let ghost old_res = text::texts(res@);
            let name: String = part.to_string();
            res.push(name);
            assert(text::texts(res@) =~= old_res.push(name@));
        }
        i = i + 1;
    }
    assert(whole.take(whole.len() as int) =~= whole);
    res
}

/// Whether a text is free of separators.
pub open spec fn has_no_separator(part: Seq<char>) -> bool {
    forall|i: int| 0 <= i < part.len() ==> #[trigger] part[i] != '/'
}

/// Whether a sequence consists of names between separators.
pub open spec fn are_names(list: Seq<Seq<char>>) -> bool {
    forall|i: int|
        0 <= i < list.len() ==> is_name(#[trigger] list[i]) && has_no_separator(list[i])
}

/// Whether a sequence is one that a path can have as its components.
pub open spec fn are_components(list: Seq<Seq<char>>) -> bool {
    ||| are_names(list)
    ||| {
        &&& list.len() > 0
        &&& list[0] == root_dir() || list[0] == cur_dir()
        &&& are_names(list.skip(1))
    }
}

/// The names of a path are names.
pub proof fn lemma_names(path: Seq<char>)
    ensures
        are_names(names(path)),
{
    let keep = |part: Seq<char>| is_name(part);
    let all = parts(path);
    assert forall|i: int| 0 <= i < names(path).len() implies is_name(#[trigger] names(path)[i])
        && has_no_separator(names(path)[i]) by {
        all.lemma_filter_pred(keep, i);
        lemma_filtered_is_contained(all, keep, i);
        let k = choose|k: int| 0 <= k < all.len() && all[k] == names(path)[i];
        assert forall|j: int| 0 <= j < names(path)[i].len() implies #[trigger] names(path)[i][j]
            != '/' by {
            text::lemma_pieces_hold_no_separator(path, Separator::Char('/'), k, j);
        }
    }
}

proof fn lemma_filtered_is_contained<A>(s: Seq<A>, keep: spec_fn(A) -> bool, i: int)
    requires
        0 <= i < s.filter(keep).len(),
    ensures
        exists|k: int| 0 <= k < s.len() && s[k] == s.filter(keep)[i],
    decreases s.len(),
{
    reveal(Seq::filter);
    let rest = s.drop_last();
    if i < rest.filter(keep).len() {
        lemma_filtered_is_contained(rest, keep, i);
        let k = choose|k: int| 0 <= k < rest.len() && rest[k] == rest.filter(keep)[i];
        assert(s[k] == s.filter(keep)[i]);
    } else {
        assert(s[s.len() - 1] == s.filter(keep)[i]);
    }
}

/// The components of a path are components.
pub proof fn lemma_components(path: Seq<char>)
    ensures
        are_components(components(path)),
{
    lemma_names(path);
    if is_absolute(path) || parts(path)[0] == cur_dir() {
        assert(components(path).skip(1) =~= names(path));
    }
}

/// Splitting names that were joined gives the names back.
proof fn lemma_parts_of_joined(list: Seq<Seq<char>>)
    requires
        list.len() > 0,
        forall|i: int| 0 <= i < list.len() ==> has_no_separator(#[trigger] list[i]),
    ensures
        parts(text::joined(list, seq!['/'])) == list,
    decreases list.len(),
{
    let slash = Separator::Char('/');
    if list.len() == 1 {
        text::lemma_pieces_of_one(list[0], slash);
        assert(seq![list[0]] =~= list);
    } else {
        let front = list.drop_last();
        assert forall|i: int| 0 <= i < front.len() implies has_no_separator(#[trigger] front[i]) by {
            assert(front[i] == list[i]);
        }
        lemma_parts_of_joined(front);
        let left = text::joined(front, seq!['/']);
        assert(has_no_separator(list[list.len() - 1]));
        text::lemma_pieces_of_one(list.last(), slash);
        text::lemma_pieces_of_joined(left, '/', list.last(), slash);
        assert(left + seq!['/'] + list.last() =~= left.push('/') + list.last());
        assert(front + seq![list.last()] =~= list);
    }
}

/// Names are all kept.
proof fn lemma_filter_names(list: Seq<Seq<char>>)
    requires
        forall|i: int| 0 <= i < list.len() ==> is_name(#[trigger] list[i]),
    ensures
        list.filter(|part: Seq<char>| is_name(part)) == list,
    decreases list.len(),
{
    reveal(Seq::filter);
    if list.len() > 0 {
        let front = list.drop_last();
        assert forall|i: int| 0 <= i < front.len() implies is_name(#[trigger] front[i]) by {
            assert(front[i] == list[i]);
        }
        lemma_filter_names(front);
        assert(is_name(list[list.len() - 1]));
        assert(front.push(list.last()) =~= list);
    } else {
        assert(list =~= Seq::empty());
    }
}

/// A separator between two texts parts their names.
pub proof fn lemma_names_of_joined(a: Seq<char>, b: Seq<char>)
    ensures
        parts(a.push('/') + b) == parts(a) + parts(b),
        names(a.push('/') + b) == names(a) + names(b),
{
    text::lemma_pieces_of_joined(a, '/', b, Separator::Char('/'));
    Seq::filter_distributes_over_add(parts(a), parts(b), |part: Seq<char>| is_name(part));
}

/// The first of several parts stands in front of all others.
pub proof fn lemma_joined_first(first: Seq<char>, list: Seq<Seq<char>>)
    requires
        list.len() > 0,
    ensures
        text::joined(seq![first] + list, seq!['/']) == first.push('/') + text::joined(
            list,
            seq!['/'],
        ),
    decreases list.len(),
{
    let whole = seq![first] + list;
    if list.len() == 1 {
        assert(whole.drop_last() =~= seq![first]);
        assert(text::joined(seq![first], seq!['/']) == first);
        assert(first + seq!['/'] + list[0] =~= first.push('/') + list[0]);
    } else {
        lemma_joined_first(first, list.drop_last());
        assert(whole.drop_last() =~= seq![first] + list.drop_last());
        let front = text::joined(list.drop_last(), seq!['/']);
        assert(first.push('/') + front + seq!['/'] + list.last() =~= first.push('/') + (front + seq![
            '/',
        ] + list.last()));
    }
}

/// The text of joined names has these names.
proof fn lemma_names_of_text(list: Seq<Seq<char>>)
    requires
        are_names(list),
    ensures
        names(text::joined(list, seq!['/'])) == list,
        list.len() > 0 ==> parts(text::joined(list, seq!['/'])) == list,
        !is_absolute(text::joined(list, seq!['/'])),
        list.len() == 0 ==> parts(text::joined(list, seq!['/'])) == seq![Seq::<char>::empty()],
{
    let joined = text::joined(list, seq!['/']);
    if list.len() == 0 {
        reveal(Seq::filter);
        reveal_with_fuel(Seq::filter, 3);
        assert(joined =~= Seq::<char>::empty());
        assert(parts(joined) =~= seq![Seq::<char>::empty()]);
        assert(parts(joined).drop_last() =~= Seq::<Seq<char>>::empty());
        assert(names(joined) =~= list);
    } else {
        lemma_parts_of_joined(list);
        lemma_filter_names(list);
        if list.len() == 1 {
            assert(is_name(list[0]));
        } else {
            assert(list =~= seq![list[0]] + list.skip(1));
            lemma_joined_first(list[0], list.skip(1));
            assert(joined[0] == list[0][0]);
        }
    }
}

/// The path that is written from components has these components.
pub proof fn lemma_components_of_text(list: Seq<Seq<char>>)
    requires
        are_components(list),
    ensures
        components(path_text(list)) == list,
{
    let path = path_text(list);
    if are_names(list) {
        if list.len() > 0 {
            assert(is_name(list[0]) && has_no_separator(list[0]));
            assert(list[0] != root_dir()) by {
                assert(root_dir()[0] == '/');
            }
        }
        lemma_names_of_text(list);
        if list.len() == 0 {
            assert(parts(path)[0] != cur_dir()) by {
                assert(cur_dir().len() == 1);
            }
        }
        assert(components(path) =~= list);
    } else {
        let rest = list.skip(1);
        assert(list =~= seq![list[0]] + rest);
        lemma_names_of_text(rest);
        let tail = text::joined(rest, seq!['/']);
        if list[0] == root_dir() {
            lemma_names_of_joined(Seq::empty(), tail);
            lemma_names_of_text(Seq::empty());
            assert(path =~= Seq::<char>::empty().push('/') + tail);
            assert(text::joined(Seq::<Seq<char>>::empty(), seq!['/']) =~= Seq::<char>::empty());
            assert(names(path) =~= rest);
        } else {
            assert(list[0] != root_dir()) by {
                assert(root_dir()[0] == '/');
                assert(cur_dir()[0] == '.');
            }
            assert(has_no_separator(cur_dir()));
            text::lemma_pieces_of_one(cur_dir(), Separator::Char('/'));
            lemma_only_cur_dir();
            if rest.len() == 0 {
                assert(list =~= seq![cur_dir()]);
                assert(path =~= cur_dir());
            } else {
                lemma_joined_first(cur_dir(), rest);
                lemma_names_of_joined(cur_dir(), tail);
                assert(names(path) =~= rest);
                assert(parts(path)[0] =~= cur_dir());
            }
        }
    }
}

proof fn lemma_only_cur_dir()
    ensures
        parts(cur_dir()) == seq![cur_dir()],
        names(cur_dir()) == Seq::<Seq<char>>::empty(),
{
    text::lemma_pieces_of_one(cur_dir(), Separator::Char('/'));
    reveal_with_fuel(Seq::filter, 3);
    assert(seq![cur_dir()].drop_last() =~= Seq::<Seq<char>>::empty());
    assert(names(cur_dir()) =~= Seq::<Seq<char>>::empty());
}

/// The components of a path that starts at another one: those of the other one, then its
/// own without a current directory in front.
pub proof fn lemma_components_of_join(base: Seq<char>, path: Seq<char>)
    ensures
        is_absolute(path) || base.len() == 0 ==> components(join_path(base, path)) == components(
            path,
        ),
        !is_absolute(path) && base.len() > 0 ==> components(join_path(base, path)) == components(
            base,
        ) + names(path),
{
    if !is_absolute(path) && base.len() > 0 {
        let whole = join_path(base, path);
        text::lemma_pieces_not_empty(base, Separator::Char('/'));
        if base.last() == '/' {
            let front = base.drop_last();
            text::lemma_pieces_not_empty(front, Separator::Char('/'));
            assert(front.push('/') =~= base);
            lemma_names_of_joined(front, path);
            lemma_names_of_joined(front, Seq::empty());
            lemma_names_of_text(Seq::empty());
            assert(text::joined(Seq::<Seq<char>>::empty(), seq!['/']) =~= Seq::<char>::empty());
            assert(base + Seq::<char>::empty() =~= base);
            assert(names(base) =~= names(front));
            assert(parts(whole)[0] == parts(base)[0]);
        } else {
            lemma_names_of_joined(base, path);
            assert(parts(whole)[0] == parts(base)[0]);
        }
        assert(whole[0] == base[0]);
        assert(components(whole) =~= components(base) + names(path));
    }
}

/// Whether a component names a file or a directory.
pub fn names_a_file(component: &str) -> (res: bool)
    ensures
        res == is_normal(component@),
{
    proof {
        reveal_strlit("/");
        reveal_strlit(".");
        reveal_strlit("..");
        assert("/"@ =~= root_dir());
        assert("."@ =~= cur_dir());
        assert(".."@ =~= parent_dir());
    }
    !text::equal(component, "/") && !text::equal(component, ".") && !text::equal(component, "..")
}

/// The last component of a path, where it names a file or a directory.
pub fn path_file_name(path: &str) -> (res: Option<String>)
    ensures
        text::opt_text(res) == file_name(path@),
{
    let mut all = split_path(path);
    assert(text::texts(all@).len() == all.len());
    let ghost whole = text::texts(all@);
    match all.pop() {
        Some(last) => {
            assert(last@ == whole.last());
            if names_a_file(last.as_str()) {
                Some(last)
            } else {
                None
            }
        },
        None => None,
    }
}

proof fn lemma_last_dot(name: Seq<char>)
    ensures
        -1 <= last_dot(name) < name.len(),
    decreases name.len(),
{
    if name.len() > 0 {
        lemma_last_dot(name.drop_last());
    }
}

/// The place of the last dot that is not in front.
fn find_dot(name: &str) -> (res: Option<usize>)
    ensures
        match res {
            Some(at) => 0 < at < name@.len() && at == last_dot(name@),
            None => last_dot(name@) <= 0,
        },
{
    let chars = chars_of(name);
    let mut end: usize = chars.len();
    assert(name@.take(end as int) =~= name@);
    proof {
        lemma_last_dot(name@);
    }
    while end > 0
        invariant
            chars@ == name@,
            end <= chars.len(),
            last_dot(name@.take(end as int)) == last_dot(name@),
        decreases end,
    {
        assert(name@.take(end as int).drop_last() =~= name@.take(end - 1));
        if chars[end - 1] == '.' {
            if end == 1 {
                return None;
            }
            return Some(end - 1);
        }
        end = end - 1;
    }
    None
}

/// The file name of a path without its extension.
pub fn path_file_stem(path: &str) -> (res: Option<String>)
    ensures
        text::opt_text(res) == file_stem(path@),
{
    match path_file_name(path) {
        Some(name) => match find_dot(name.as_str()) {
            Some(at) => {
                assert(name@.subrange(0, at as int) =~= name@.take(at as int));
                Some(name.as_str().substring_char(0, at).to_string())
            },
            None => Some(name),
        },
        None => None,
    }
}

/// The extension of a path's file name.
pub fn path_extension(path: &str) -> (res: Option<String>)
    ensures
        text::opt_text(res) == extension(path@),
{
    match path_file_name(path) {
        Some(name) => match find_dot(name.as_str()) {
            Some(at) => {
                let end: usize = name.as_str().unicode_len();
                assert(name@.subrange(at + 1, end as int) =~= name@.skip(at + 1));
                Some(name.as_str().substring_char(at + 1, end).to_string())
            },
            None => None,
        },
        None => None,
    }
}

/// The path with `/` in place of each `\\`, as it is written where `\\` parts paths.
pub open spec fn slashed(path: Seq<char>) -> Seq<char> {
    text::replaced(path, "\\"@, "/"@)
}

/// Writes `/` in place of each `\\` of a path.
pub fn slash(path: &str) -> (res: String)
    ensures
        res@ == slashed(path@),
{
    proof {
        reveal_strlit("\\");
    }
    text::replace_all(path, "\\", "/")
}

/// Just the `\\` of a path are replaced, each by one `/`, so that none is left.
pub proof fn law_slashed(path: Seq<char>)
    ensures
        slashed(path).len() == path.len(),
        forall|i: int|
            0 <= i < path.len() ==> #[trigger] slashed(path)[i] == (if path[i] == '\\' {
                '/'
            } else {
                path[i]
            }),
        !slashed(path).contains('\\'),
    decreases path.len(),
{
    reveal_strlit("\\");
    reveal_strlit("/");
    if path.len() > 0 {
        let rest = path.drop_first();
        law_slashed(rest);
        assert(text::starts_with(path, "\\"@) == (path[0] == '\\')) by {
            assert("\\"@ =~= seq!['\\']);
            if path[0] == '\\' {
                assert(path.subrange(0, 1) =~= "\\"@);
            } else if text::starts_with(path, "\\"@) {
                assert(path.subrange(0, 1)[0] == "\\"@[0]);
            }
        }
        assert(path.skip(1) =~= rest);
        assert forall|i: int| 0 <= i < path.len() implies #[trigger] slashed(path)[i] == (
        if path[i] == '\\' {
            '/'
        } else {
            path[i]
        }) by {
            if i > 0 {
                assert(slashed(path)[i] == slashed(rest)[i - 1]);
            }
        }
    }
}

/// Joins a path to the one that it starts at.
pub fn join(base: &str, path: &str) -> (res: String)
    ensures
        res@ == join_path(base@, path@),
{
    if base.is_empty() || (!path.is_empty() && path.get_char(0) == '/') {
        path.to_string()
    } else {
        let mut res: String = base.to_string();
        if base.get_char(base.unicode_len() - 1) != '/' {
            res.append("/");
            proof {
                reveal_strlit("/");
                assert(res@ =~= base@.push('/'));
            }
        }
        res.append(path);
        res
    }
}

/// Whether a part between two separators is a component of its own.
fn names_something(part: &str) -> (res: bool)
    ensures
        res == is_name(part@),
{
    proof {
        reveal_strlit(".");
        assert("."@ =~= cur_dir());
    }
    !part.is_empty() && !text::equal(part, ".")
}

/// How many components a path has, but for the root directory and a current directory in front.
fn count_names(path: &str) -> (res: usize)
    ensures
        res == names(path@).len(),
{
    let list = text::split(path, Separator::Char('/'));
    let ghost all = parts(path@);
    let ghost keep = |part: Seq<char>| is_name(part);
    assert(text::texts(list@).len() == list.len());
    let mut count: usize = 0;
    let mut i: usize = 0;
    assert(all.take(0).filter(keep).len() == 0) by {
        reveal(Seq::filter);
    }
    while i < list.len()
        invariant
            text::texts(list@) == all,
            all.len() == list.len(),
            keep == (|part: Seq<char>| is_name(part)),
            count <= i <= list.len(),
            count == all.take(i as int).filter(keep).len(),
        decreases list.len() - i,
    {
        assert(list@[i as int]@ == all[i as int]);
        proof {
            reveal(Seq::filter);
            assert(all.take(i + 1).drop_last() =~= all.take(i as int));
        }
        if names_something(list[i].as_str()) {
            count = count + 1;
        }
        i = i + 1;
    }
    assert(all.take(i as int) =~= all);
    count
}

/// The place behind the first names of a list.
fn find_behind(list: &Vec<String>, count: usize) -> (res: usize)
    ensures
        res <= list.len(),
        behind(text::texts(list@), count as nat) == text::texts(list@).skip(res as int),
{
    let ghost all = text::texts(list@);
    let mut left: usize = count;
    let mut i: usize = 0;
    assert(all.skip(0) =~= all);
    assert(all.len() == list.len());
    while left > 0 && i < list.len()
        invariant
            all == text::texts(list@),
            all.len() == list.len(),
            i <= list.len(),
            behind(all.skip(i as int), left as nat) == behind(all, count as nat),
        decreases list.len() - i,
    {
        assert(all.skip(i as int)[0] == list@[i as int]@);
        assert(all.skip(i as int).drop_first() =~= all.skip(i + 1));
        if names_something(list[i].as_str()) {
            left = left - 1;
        }
        i = i + 1;
    }
    i
}

/// The place of the first name of a list from the given place on.
fn find_first_name(list: &Vec<String>, start: usize) -> (res: usize)
    requires
        start <= list.len(),
    ensures
        start <= res <= list.len(),
        from_first_name(text::texts(list@).skip(start as int)) == text::texts(list@).skip(
            res as int,
        ),
{
    let ghost all = text::texts(list@);
    let mut i: usize = start;
    assert(all.len() == list.len());
    while i < list.len()
        invariant
            all == text::texts(list@),
            all.len() == list.len(),
            start <= i <= list.len(),
            from_first_name(all.skip(i as int)) == from_first_name(all.skip(start as int)),
        decreases list.len() - i,
    {
        assert(all.skip(i as int)[0] == list@[i as int]@);
        if names_something(list[i].as_str()) {
            return i;
        }
        assert(all.skip(i as int).drop_first() =~= all.skip(i + 1));
        i = i + 1;
    }
    i
}

/// The place behind the last name of a list that stands at the given place or later.
fn find_last_name(list: &Vec<String>, start: usize) -> (res: usize)
    requires
        start <= list.len(),
    ensures
        start <= res <= list.len(),
        up_to_last_name(text::texts(list@).skip(start as int)) == text::texts(list@).subrange(
            start as int,
            res as int,
        ),
{
    let ghost all = text::texts(list@);
    let mut end: usize = list.len();
    assert(all.len() == list.len());
    assert(all.subrange(start as int, end as int) =~= all.skip(start as int));
    while end > start
        invariant
            all == text::texts(list@),
            all.len() == list.len(),
            start <= end <= list.len(),
            up_to_last_name(all.subrange(start as int, end as int)) == up_to_last_name(
                all.skip(start as int),
            ),
        decreases end - start,
    {
        assert(all.subrange(start as int, end as int).last() == list@[end - 1]@);
        if names_something(list[end - 1].as_str()) {
            return end;
        }
        assert(all.subrange(start as int, end as int).drop_last() =~= all.subrange(
            start as int,
            end - 1,
        ));
        end = end - 1;
    }
    end
}

/// What is written behind the components of `base`.
fn write_rest(path: &str, base: &str) -> (res: String)
    ensures
        res@ == rest_behind(path@, base@),
{
    let list = text::split(path, Separator::Char('/'));
    let ghost all = parts(path@);
    proof {
        text::lemma_pieces_not_empty(path@, Separator::Char('/'));
        assert(text::texts(list@).len() == list.len());
        reveal_strlit("/");
        assert("/"@ =~= seq!['/']);
    }
    if base.is_empty() {
        let end = find_last_name(&list, 1);
        assert(all.subrange(0, end as int) =~= all.take(1) + all.subrange(1, end as int));
        if end == 1 && !path.is_empty() && path.get_char(0) == '/' {
            return "/".to_string();
        }
        text::join(&text::copy_range(&list, 0, end), "/")
    } else {
        let first = find_first_name(&list, find_behind(&list, count_names(base)));
        let end = find_last_name(&list, first);
        text::join(&text::copy_range(&list, first, end), "/")
    }
}

/// Takes the components of `base` off the front of a path.
pub fn strip_prefix(path: &str, base: &str) -> (res: Option<String>)
    ensures
        text::opt_text(res) == stripped(path@, base@),
{
    let all = split_path(path);
    let front = split_path(base);
    let ghost a = components(path@);
    let ghost b = components(base@);
    assert(a.len() == all.len() && b.len() == front.len());
    if front.len() > all.len() {
        return None;
    }
    let mut i: usize = 0;
    while i < front.len()
        invariant
            text::texts(all@) == a,
            text::texts(front@) == b,
            a == components(path@),
            b == components(base@),
            i <= front.len() <= all.len(),
            forall|k: int| 0 <= k < i ==> a[k] == #[trigger] b[k],
        decreases front.len() - i,
    {
        assert(all@[i as int]@ == a[i as int] && front@[i as int]@ == b[i as int]);
        if !text::equal(all[i].as_str(), front[i].as_str()) {
            assert(!b.is_prefix_of(a));
            return None;
        }
        i = i + 1;
    }
    assert(b =~= a.subrange(0, b.len() as int));
    Some(write_rest(path, base))
}

/// The names of a list are those behind its first part, with that part in front if it is one.
proof fn lemma_filter_first(list: Seq<Seq<char>>)
    requires
        list.len() > 0,
    ensures
        list.filter(|part: Seq<char>| is_name(part)) == (if is_name(list[0]) {
            seq![list[0]] + list.drop_first().filter(|part: Seq<char>| is_name(part))
        } else {
            list.drop_first().filter(|part: Seq<char>| is_name(part))
        }),
{
    let keep = |part: Seq<char>| is_name(part);
    let one = seq![list[0]];
    assert(list =~= one + list.drop_first());
    Seq::filter_distributes_over_add(one, list.drop_first(), keep);
    assert(one.filter(keep) == (if is_name(list[0]) {
        one
    } else {
        Seq::empty()
    })) by {
        reveal_with_fuel(Seq::filter, 3);
        assert(one.drop_last() =~= Seq::<Seq<char>>::empty());
        assert(Seq::<Seq<char>>::empty().push(list[0]) =~= one);
    }
}

proof fn lemma_behind(list: Seq<Seq<char>>, count: nat)
    requires
        forall|i: int| 0 <= i < list.len() ==> has_no_separator(#[trigger] list[i]),
        count <= list.filter(|part: Seq<char>| is_name(part)).len(),
    ensures
        behind(list, count).filter(|part: Seq<char>| is_name(part)) == list.filter(
            |part: Seq<char>| is_name(part),
        ).skip(count as int),
        forall|i: int|
            0 <= i < behind(list, count).len() ==> has_no_separator(
                #[trigger] behind(list, count)[i],
            ),
    decreases list.len(),
{
    let keep = |part: Seq<char>| is_name(part);
    assert(list.filter(keep).skip(0) =~= list.filter(keep));
    if count > 0 && list.len() > 0 {
        let rest = list.drop_first();
        lemma_filter_first(list);
        if is_name(list[0]) {
            lemma_behind(rest, (count - 1) as nat);
            assert(list.filter(keep).skip(count as int) =~= rest.filter(keep).skip(count - 1));
        } else {
            lemma_behind(rest, count);
        }
    } else if list.len() == 0 {
        reveal(Seq::filter);
    }
}

proof fn lemma_from_first_name(list: Seq<Seq<char>>)
    requires
        forall|i: int| 0 <= i < list.len() ==> has_no_separator(#[trigger] list[i]),
    ensures
        ({
            let rest = from_first_name(list);
            &&& rest.filter(|part: Seq<char>| is_name(part)) == list.filter(
                |part: Seq<char>| is_name(part),
            )
            &&& rest.len() > 0 ==> is_name(rest[0])
            &&& forall|i: int| 0 <= i < rest.len() ==> has_no_separator(#[trigger] rest[i])
        }),
    decreases list.len(),
{
    if list.len() > 0 && !is_name(list[0]) {
        lemma_filter_first(list);
        lemma_from_first_name(list.drop_first());
    }
}

proof fn lemma_up_to_last_name(list: Seq<Seq<char>>)
    requires
        forall|i: int| 0 <= i < list.len() ==> has_no_separator(#[trigger] list[i]),
    ensures
        ({
            let rest = up_to_last_name(list);
            &&& rest.filter(|part: Seq<char>| is_name(part)) == list.filter(
                |part: Seq<char>| is_name(part),
            )
            &&& list.len() > 0 && is_name(list[0]) ==> rest.len() > 0 && rest[0] == list[0]
            &&& rest.is_prefix_of(list)
            &&& forall|i: int| 0 <= i < rest.len() ==> has_no_separator(#[trigger] rest[i])
        }),
    decreases list.len(),
{
    if list.len() > 0 && !is_name(list.last()) {
        reveal(Seq::filter);
        lemma_up_to_last_name(list.drop_last());
    }
}

proof fn lemma_parts_hold_no_separator(path: Seq<char>)
    ensures
        forall|i: int| 0 <= i < parts(path).len() ==> has_no_separator(#[trigger] parts(path)[i]),
{
    assert forall|i: int| 0 <= i < parts(path).len() implies has_no_separator(
        #[trigger] parts(path)[i],
    ) by {
        assert forall|j: int| 0 <= j < parts(path)[i].len() implies #[trigger] parts(path)[i][j]
            != '/' by {
            text::lemma_pieces_hold_no_separator(path, Separator::Char('/'), i, j);
        }
    }
}

/// What is written from parts, the first of which is a name, has just the names among them.
proof fn lemma_components_of_parts(list: Seq<Seq<char>>)
    requires
        forall|i: int| 0 <= i < list.len() ==> has_no_separator(#[trigger] list[i]),
        list.len() > 0 ==> is_name(list[0]),
    ensures
        components(text::joined(list, seq!['/'])) == list.filter(
            |part: Seq<char>| is_name(part),
        ),
{
    let path = text::joined(list, seq!['/']);
    if list.len() == 0 {
        reveal(Seq::filter);
        lemma_no_components(path);
    } else {
        lemma_parts_of_joined(list);
        if list.len() > 1 {
            assert(list =~= seq![list[0]] + list.skip(1));
            lemma_joined_first(list[0], list.skip(1));
        }
        assert(path[0] == list[0][0]);
    }
}

proof fn lemma_components_without_tail(path: Seq<char>)
    ensures
        components(without_tail(path)) == components(path),
{
    let keep = |part: Seq<char>| is_name(part);
    let all = parts(path);
    let tail = up_to_last_name(all.skip(1));
    let list = all.take(1) + tail;
    let short = without_tail(path);
    text::lemma_pieces_not_empty(path, Separator::Char('/'));
    lemma_parts_hold_no_separator(path);
    assert forall|i: int| 0 <= i < all.skip(1).len() implies has_no_separator(
        #[trigger] all.skip(1)[i],
    ) by {
        assert(all.skip(1)[i] == all[i + 1]);
    }
    lemma_up_to_last_name(all.skip(1));
    assert(all =~= all.take(1) + all.skip(1));
    Seq::filter_distributes_over_add(all.take(1), all.skip(1), keep);
    Seq::filter_distributes_over_add(all.take(1), tail, keep);
    assert(list.filter(keep) == names(path));
    assert forall|i: int| 0 <= i < list.len() implies has_no_separator(#[trigger] list[i]) by {
        if i == 0 {
            assert(list[0] == all[0]);
        } else {
            assert(list[i] == tail[i - 1]);
        }
    }
    lemma_parts_of_joined(list);
    if path.len() > 0 {
        lemma_first_part_of(path);
    }
    if list.len() > 1 {
        assert(list =~= seq![list[0]] + list.skip(1));
        lemma_joined_first(list[0], list.skip(1));
    }
    if is_absolute(path) {
        assert(all[0].len() == 0);
        if list.len() == 1 {
            assert(short =~= root_dir());
            assert(list[0] =~= Seq::<char>::empty());
            assert(list =~= seq![Seq::<char>::empty()]);
            lemma_names_of_joined(Seq::empty(), Seq::empty());
            lemma_names_of_text(Seq::empty());
            assert(text::joined(Seq::<Seq<char>>::empty(), seq!['/']) =~= Seq::<char>::empty());
            assert(Seq::<char>::empty().push('/') + Seq::<char>::empty() =~= root_dir());
            assert(names(short) =~= Seq::<Seq<char>>::empty());
            assert(names(path) =~= Seq::<Seq<char>>::empty()) by {
                reveal_with_fuel(Seq::filter, 3);
                assert(list.drop_last() =~= Seq::<Seq<char>>::empty());
            }
        } else {
            assert(short[0] == '/');
        }
    } else if path.len() > 0 {
        assert(short[0] == all[0][0]);
    } else {
        assert(path =~= Seq::<char>::empty());
        assert(all =~= seq![Seq::<char>::empty()]);
        assert(short =~= path);
    }
}

/// The first part of a path is empty where the path begins with a separator.
proof fn lemma_first_part_of(path: Seq<char>)
    requires
        path.len() > 0,
    ensures
        parts(path).len() > 0,
        path[0] == '/' ==> parts(path)[0].len() == 0,
        path[0] != '/' ==> parts(path)[0].len() > 0 && parts(path)[0][0] == path[0],
{
    if path[0] == '/' {
        let rest = path.drop_first();
        assert(path =~= Seq::<char>::empty().push('/') + rest);
        lemma_names_of_joined(Seq::empty(), rest);
    } else {
        lemma_first_part(path);
    }
}

/// What is left of a path has the components that were not taken off.
pub proof fn lemma_components_of_stripped(path: Seq<char>, base: Seq<char>)
    requires
        is_under(path, base),
    ensures
        components(stripped(path, base)->0) == components(path).skip(
            components(base).len() as int,
        ),
{
    let all = components(path);
    let front = components(base);
    if base.len() == 0 {
        lemma_no_components(base);
        assert(all.skip(0) =~= all);
        lemma_components_without_tail(path);
    } else {
        let count = names(base).len();
        lemma_some_component(base);
        lemma_components(path);
        lemma_components(base);
        lemma_names(path);
        lemma_names(base);
        assert(front[0] == all[0]);
        assert(count <= names(path).len() && all.skip(front.len() as int) =~= names(path).skip(
            count as int,
        )) by {
            assert(root_dir()[0] == '/' && cur_dir()[0] == '.');
            lemma_first_is_special(path);
            lemma_first_is_special(base);
        }
        lemma_parts_hold_no_separator(path);
        lemma_behind(parts(path), count);
        let rest = behind(parts(path), count);
        lemma_from_first_name(rest);
        lemma_up_to_last_name(from_first_name(rest));
        lemma_components_of_parts(up_to_last_name(from_first_name(rest)));
    }
}

/// The first component of a path is a root directory or a current directory just where it is
/// none of the names.
proof fn lemma_first_is_special(path: Seq<char>)
    requires
        components(path).len() > 0,
    ensures
        ({
            let first = components(path)[0];
            components(path) == (if first == root_dir() || first == cur_dir() {
                seq![first] + names(path)
            } else {
                names(path)
            })
        }),
{
    lemma_names(path);
    if !is_absolute(path) && parts(path)[0] != cur_dir() {
        assert(is_name(names(path)[0]) && has_no_separator(names(path)[0]));
        assert(root_dir()[0] == '/');
    }
}

/// Joining a stripped path to the base that was taken off gives the same path again.
pub proof fn law_join_undoes_strip(path: Seq<char>, base: Seq<char>)
    requires
        is_under(path, base),
    ensures
        same_path(join_path(base, stripped(path, base)->0), path),
{
    let all = components(path);
    let front = components(base);
    let rest = all.skip(front.len() as int);
    let short = stripped(path, base)->0;
    assert(front + rest =~= all);
    lemma_components_of_stripped(path, base);
    lemma_components_of_join(base, short);
    if base.len() == 0 {
        lemma_no_components(base);
        assert(rest =~= all);
    } else {
        lemma_rest_is_relative(path, base);
    }
}

/// What is left of a path has no root directory and no current directory in front.
pub proof fn lemma_rest_is_relative(path: Seq<char>, base: Seq<char>)
    requires
        is_under(path, base),
        base.len() > 0,
    ensures
        ({
            let short = stripped(path, base)->0;
            !is_absolute(short) && components(short) == names(short) && are_names(
                components(short),
            )
        }),
{
    let all = components(path);
    let front = components(base);
    let rest = all.skip(front.len() as int);
    let short = stripped(path, base)->0;
    lemma_components_of_stripped(path, base);
    lemma_components(path);
    lemma_some_component(base);
    assert(are_names(rest)) by {
        assert forall|i: int| 0 <= i < rest.len() implies is_name(#[trigger] rest[i])
            && has_no_separator(rest[i]) by {
            if are_names(all) {
                assert(rest[i] == all[i + front.len()]);
            } else {
                assert(rest[i] == all.skip(1)[i + front.len() - 1]);
            }
        }
    }
    assert(root_dir()[0] == '/');
    if components(short).len() > 0 {
        assert(is_name(components(short)[0]) && has_no_separator(components(short)[0]));
        lemma_first_is_special(short);
    } else if short.len() > 0 {
        lemma_some_component(short);
    } else {
        lemma_no_components(short);
    }
}

proof fn lemma_no_components(path: Seq<char>)
    requires
        path.len() == 0,
    ensures
        components(path) == Seq::<Seq<char>>::empty(),
{
    lemma_names_of_text(Seq::empty());
    assert(text::joined(Seq::<Seq<char>>::empty(), seq!['/']) =~= path);
    assert(cur_dir().len() == 1);
}

/// A path that is not empty has a component.
pub proof fn lemma_some_component(path: Seq<char>)
    requires
        path.len() > 0,
    ensures
        components(path).len() > 0,
{
    if !is_absolute(path) && parts(path)[0] != cur_dir() {
        lemma_first_part(path);
        parts(path).lemma_filter_contains(|part: Seq<char>| is_name(part), 0);
        assert(names(path).contains(parts(path)[0]));
    }
}

proof fn lemma_first_part(path: Seq<char>)
    requires
        path.len() > 0,
        path[0] != '/',
    ensures
        parts(path).len() > 0,
        parts(path)[0].len() > 0,
        parts(path)[0][0] == path[0],
    decreases path.len(),
{
    text::lemma_pieces_not_empty(path, Separator::Char('/'));
    let front = path.drop_last();
    text::lemma_pieces_not_empty(front, Separator::Char('/'));
    if front.len() > 0 {
        lemma_first_part(front);
    } else {
        assert(front =~= Seq::<char>::empty());
        reveal_with_fuel(text::pieces, 2);
        assert(parts(path)[0] =~= seq![path[0]]);
    }
}

/// Whether two paths are the same.
pub fn same(a: &str, b: &str) -> (res: bool)
    ensures
        res == same_path(a@, b@),
{
    let x = split_path(a);
    let y = split_path(b);
    text::equal_lists(&x, &y)
}

} // verus!
