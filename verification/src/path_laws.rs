//! What holds of taking paths apart and putting them together.
use crate::path;
use crate::text;
use crate::text::Separator;
use crate::text_laws;
use vstd::prelude::*;
use vstd::string::*;

verus! {

/// The components behind a root directory or a current directory in front.
pub open spec fn behind_special(components: Seq<Seq<char>>) -> Seq<Seq<char>> {
    if components.len() > 0 && (components[0] == "/"@ || components[0] == "."@) {
        components.skip(1)
    } else {
        components
    }
}

proof fn lemma_special_texts()
    ensures
        "/"@ == path::root_dir(),
        "."@ == path::cur_dir(),
        ".."@ == path::parent_dir(),
{
    reveal_strlit("/");
    reveal_strlit(".");
    reveal_strlit("..");
    assert("/"@ =~= path::root_dir());
    assert("."@ =~= path::cur_dir());
    assert(".."@ =~= path::parent_dir());
}

proof fn lemma_behind_special(given: Seq<char>)
    ensures
        behind_special(path::components(given)) == path::names(given),
{
    lemma_special_texts();
    let all = path::components(given);
    let names = path::names(given);
    path::lemma_names(given);
    if path::is_absolute(given) {
        assert(all.skip(1) =~= names);
    } else if path::parts(given)[0] == path::cur_dir() {
        assert(all.skip(1) =~= names);
    } else if names.len() > 0 {
        assert(path::is_name(names[0]));
        assert(path::has_no_separator(names[0]));
        if names[0] == path::root_dir() {
            assert(names[0][0] == '/');
        }
    }
}

/// Two paths with a separator in between have the components of both, one behind the other, but
/// for a root directory or a current directory in front of the second one. So separators that are
/// repeated, and a `.` within a path, make no difference.
pub proof fn law_components_of_joined(
    a: &str,
    b: &str,
    both: &str,
    of_a: Vec<String>,
    of_b: Vec<String>,
    of_both: Vec<String>,
)
    requires
        a@.len() > 0,
        both@ == a@.push('/') + b@,
        call_ensures(path::split_path, (a,), of_a),
        call_ensures(path::split_path, (b,), of_b),
        call_ensures(path::split_path, (both,), of_both),
    ensures
        text::texts(of_both@) == text::texts(of_a@) + behind_special(text::texts(of_b@)),
{
    lemma_behind_special(b@);
    path::lemma_names_of_joined(a@, b@);
    text::lemma_pieces_not_empty(a@, Separator::Char('/'));
    assert(both@[0] == a@[0]);
    assert(path::parts(both@)[0] == path::parts(a@)[0]);
    assert(path::components(both@) =~= path::components(a@) + path::names(b@));
}

/// A path that begins with a separator has the root directory in front of the components of what
/// follows; an empty path has none, and a name is the only component of itself.
pub proof fn law_components(
    name: &str,
    rooted: &str,
    of_name: Vec<String>,
    of_rooted: Vec<String>,
)
    requires
        path::has_no_separator(name@),
        rooted@ == seq!['/'] + name@,
        call_ensures(path::split_path, (name,), of_name),
        call_ensures(path::split_path, (rooted,), of_rooted),
    ensures
        name@.len() == 0 ==> text::texts(of_name@) == Seq::<Seq<char>>::empty(),
        name@.len() > 0 ==> text::texts(of_name@) == seq![name@],
        name@.len() == 0 || name@ == "."@ ==> text::texts(of_rooted@) == seq!["/"@],
        name@.len() > 0 && name@ != "."@ ==> text::texts(of_rooted@) == seq!["/"@, name@],
{
    lemma_special_texts();
    let keep = |part: Seq<char>| path::is_name(part);
    let empty = Seq::<char>::empty();
    text::lemma_pieces_of_one(name@, Separator::Char('/'));
    text::lemma_pieces_of_one(empty, Separator::Char('/'));
    assert(rooted@ =~= empty.push('/') + name@);
    path::lemma_names_of_joined(empty, name@);
    reveal(Seq::filter);
    assert(seq![name@].drop_last() =~= Seq::<Seq<char>>::empty());
    assert(seq![name@].drop_last().filter(keep) =~= Seq::<Seq<char>>::empty());
    assert(seq![empty].drop_last() =~= Seq::<Seq<char>>::empty());
    assert(seq![empty].drop_last().filter(keep) =~= Seq::<Seq<char>>::empty());
    assert(seq![empty].filter(keep) =~= Seq::<Seq<char>>::empty());
    if path::is_name(name@) {
        assert(seq![name@].filter(keep) =~= seq![name@]);
        assert(path::names(rooted@) =~= seq![name@]);
        assert(path::components(name@) =~= seq![name@]);
        assert(path::components(rooted@) =~= seq!["/"@, name@]);
    } else {
        assert(seq![name@].filter(keep) =~= Seq::<Seq<char>>::empty());
        assert(path::names(rooted@) =~= Seq::<Seq<char>>::empty());
        assert(path::components(rooted@) =~= seq!["/"@]);
        if name@.len() == 0 {
            assert(path::components(name@) =~= Seq::<Seq<char>>::empty());
        } else {
            assert(path::components(name@) =~= seq![name@]);
        }
    }
}

/// A path that begins at the root stays as it is when it is joined to another one. Any other is
/// written behind that, with one separator in between.
pub proof fn law_join(base: &str, given: &str, res: String)
    requires
        call_ensures(path::join, (base, given), res),
    ensures
        base@.len() == 0 ==> res@ == given@,
        given@.len() > 0 && given@[0] == '/' ==> res@ == given@,
        base@.len() > 0 && base@.last() == '/' && (given@.len() == 0 || given@[0] != '/') ==> res@
            == base@ + given@,
        base@.len() > 0 && base@.last() != '/' && (given@.len() == 0 || given@[0] != '/') ==> res@
            == base@ + "/"@ + given@,
{
    reveal_strlit("/");
    if base@.len() > 0 && base@.last() != '/' {
        assert(base@.push('/') =~= base@ + "/"@);
    }
}

/// The file name of a path is its last component, unless that is the root directory, the current
/// directory or the parent directory.
pub proof fn law_file_name(given: &str, all: Vec<String>, res: Option<String>)
    requires
        call_ensures(path::split_path, (given,), all),
        call_ensures(path::path_file_name, (given,), res),
    ensures
        res is Some <==> all@.len() > 0 && all@.last()@ != "/"@ && all@.last()@ != "."@
            && all@.last()@ != ".."@,
        res is Some ==> res->0@ == all@.last()@,
{
    lemma_special_texts();
    let list = text::texts(all@);
    assert(list.len() == all@.len());
    if all@.len() > 0 {
        assert(list.last() == all@.last()@);
    }
}

proof fn lemma_dot(name: Seq<char>)
    ensures
        -1 <= path::last_dot(name) < name.len(),
        path::last_dot(name) >= 0 ==> name[path::last_dot(name)] == '.',
        forall|i: int| path::last_dot(name) < i < name.len() ==> #[trigger] name[i] != '.',
    decreases name.len(),
{
    if name.len() > 0 {
        let rest = name.drop_last();
        lemma_dot(rest);
        assert forall|i: int| path::last_dot(name) < i < name.len() implies #[trigger] name[i]
            != '.' by {
            if i < rest.len() {
                assert(rest[i] == name[i]);
            }
        }
    }
}

/// A file name is its stem, with a dot and the extension behind it where there is one. The stem is
/// not empty, and the extension holds no dot; where there is no extension, there is no dot but in
/// front.
pub proof fn law_stem_and_extension(
    given: &str,
    name: Option<String>,
    stem: Option<String>,
    extension: Option<String>,
)
    requires
        call_ensures(path::path_file_name, (given,), name),
        call_ensures(path::path_file_stem, (given,), stem),
        call_ensures(path::path_extension, (given,), extension),
    ensures
        name is Some <==> stem is Some,
        extension is Some ==> name is Some,
        extension is Some ==> name->0@ == stem->0@ + "."@ + extension->0@ && stem->0@.len() > 0
            && text_laws::lacks(extension->0@, '.'),
        name is Some && extension is None ==> stem->0@ == name->0@ && forall|i: int|
            1 <= i < name->0@.len() ==> #[trigger] name->0@[i] != '.',
{
    reveal_strlit(".");
    if name is Some {
        let whole = name->0@;
        lemma_dot(whole);
        if let Some(ext) = extension {
            let at = path::last_dot(whole);
            assert(whole =~= whole.take(at) + "."@ + whole.skip(at + 1));
            assert forall|i: int| 0 <= i < ext@.len() implies #[trigger] ext@[i] != '.' by {
                assert(ext@[i] == whole[at + 1 + i]);
            }
        }
    }
}

/// A component names a file or a directory unless it is the root directory, the current directory
/// or the parent directory. Two paths are the same just if they have the same components.
pub proof fn law_same_paths(
    component: &str,
    a: &str,
    b: &str,
    names: bool,
    of_a: Vec<String>,
    of_b: Vec<String>,
    same: bool,
)
    requires
        call_ensures(path::names_a_file, (component,), names),
        call_ensures(path::split_path, (a,), of_a),
        call_ensures(path::split_path, (b,), of_b),
        call_ensures(path::same, (a, b), same),
    ensures
        names <==> component@ != "/"@ && component@ != "."@ && component@ != ".."@,
        same <==> text::texts(of_a@) == text::texts(of_b@),
{
    lemma_special_texts();
}

/// Slashing a path replaces each `\\` by one `/`, and nothing else.
pub proof fn law_slash(given: &str, res: String)
    requires
        call_ensures(path::slash, (given,), res),
    ensures
        res@.len() == given@.len(),
        forall|i: int|
            0 <= i < given@.len() ==> #[trigger] res@[i] == (if given@[i] == '\\' {
                '/'
            } else {
                given@[i]
            }),
{
    path::law_slashed(given@);
}

/// A prefix can be stripped off just if its components are the first ones of the path, and leaves
/// the others.
pub proof fn law_strip_prefix(
    given: &str,
    base: &str,
    res: Option<String>,
    all: Vec<String>,
    front: Vec<String>,
)
    requires
        call_ensures(path::strip_prefix, (given, base), res),
        call_ensures(path::split_path, (given,), all),
        call_ensures(path::split_path, (base,), front),
    ensures
        res is Some <==> front@.len() <= all@.len() && (forall|i: int|
            0 <= i < front@.len() ==> (#[trigger] front@[i])@ == all@[i]@),
        res is Some ==> path::components(res->0@) == text::texts(all@).skip(front@.len() as int),
        res is Some ==> path::same_path(path::join_path(base@, res->0@), given@),
{
    let (a, f) = (text::texts(all@), text::texts(front@));
    assert(a.len() == all@.len() && f.len() == front@.len());
    if f.is_prefix_of(a) {
        path::lemma_components_of_stripped(given@, base@);
        path::law_join_undoes_strip(given@, base@);
        assert forall|i: int| 0 <= i < front@.len() implies (#[trigger] front@[i])@
            == all@[i]@ by {
            assert(f[i] == front@[i]@ && a[i] == all@[i]@);
            assert(f[i] == a.subrange(0, f.len() as int)[i]);
        }
    }
    if front@.len() <= all@.len() && (forall|i: int|
        0 <= i < front@.len() ==> (#[trigger] front@[i])@ == all@[i]@) {
        assert forall|i: int| 0 <= i < f.len() implies f[i] == a[i] by {
            assert(f[i] == front@[i]@ && a[i] == all@[i]@);
        }
        assert(f =~= a.subrange(0, f.len() as int));
    }
}

proof fn lemma_behind(front: Seq<Seq<char>>, back: Seq<Seq<char>>)
    ensures
        path::from_first_name(
            path::behind(front + back, front.filter(|part: Seq<char>| path::is_name(part)).len()),
        ) == path::from_first_name(back),
    decreases front.len(),
{
    let keep = |part: Seq<char>| path::is_name(part);
    let count = front.filter(keep).len();
    if front.len() == 0 {
        reveal(Seq::filter);
        assert(front + back =~= back);
    } else {
        let rest = front.drop_first();
        let first = seq![front[0]];
        assert(front =~= first + rest);
        Seq::filter_distributes_over_add(first, rest, keep);
        reveal(Seq::filter);
        assert(first.drop_last() =~= Seq::<Seq<char>>::empty());
        assert(first.drop_last().filter(keep) =~= Seq::<Seq<char>>::empty());
        assert((front + back).drop_first() =~= rest + back);
        assert((front + back)[0] == front[0]);
        lemma_behind(rest, back);
        if path::is_name(front[0]) {
            assert(first.filter(keep).len() == 1);
        } else {
            assert(first.filter(keep).len() == 0);
        }
    }
}

/// What is left when a prefix is stripped off is written as it was.
pub proof fn law_stripped_rest_is_kept(
    base: &str,
    rest: Seq<char>,
    given: &str,
    res: Option<String>,
)
    requires
        base@.len() > 0,
        given@ == base@.push('/') + rest,
        path::is_name(path::parts(rest)[0]),
        path::is_name(path::parts(rest).last()),
        call_ensures(path::strip_prefix, (given, base), res),
    ensures
        res is Some,
        res->0@ == rest,
{
    let keep = |part: Seq<char>| path::is_name(part);
    path::lemma_names_of_joined(base@, rest);
    text::lemma_pieces_not_empty(base@, Separator::Char('/'));
    text::lemma_pieces_not_empty(rest, Separator::Char('/'));
    assert(given@[0] == base@[0]);
    assert(path::parts(given@)[0] == path::parts(base@)[0]);
    let all = path::components(given@);
    let front = path::components(base@);
    assert(all =~= front + path::names(rest));
    assert(front =~= all.subrange(0, front.len() as int));
    assert(path::is_under(given@, base@));
    lemma_behind(path::parts(base@), path::parts(rest));
    let behind = path::behind(path::parts(given@), path::names(base@).len());
    assert(path::from_first_name(behind) == path::parts(rest));
    assert(path::up_to_last_name(path::parts(rest)) == path::parts(rest));
    text_laws::lemma_pieces_joined(rest, '/');
}

} // verus!
