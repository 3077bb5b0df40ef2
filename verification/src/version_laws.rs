//! What holds of reading, writing and ordering versions.
use crate::text;
use crate::text::Separator;
use crate::version;
use crate::version::{CompilerVersion, Order, Version, VersionView};
use vstd::prelude::*;
use vstd::string::*;

verus! {

/// A version is written as its numbers with dots in between, then its pre-release metadata behind
/// a hyphen and its build metadata behind a plus, each where there is some.
pub proof fn law_version_as_text(v: &Version, whole: String, release: String)
    requires
        call_ensures(Version::to_text, (v,), whole),
        call_ensures(Version::release_string, (v,), release),
    ensures
        release@ == text::decimal(v.major as nat) + "."@ + text::decimal(v.minor as nat) + "."@
            + text::decimal(v.patch as nat),
        v@.pre.len() == 0 && v@.build.len() == 0 ==> whole@ == release@,
        v@.pre.len() > 0 && v@.build.len() == 0 ==> whole@ == release@ + "-"@ + v@.pre,
        v@.pre.len() == 0 && v@.build.len() > 0 ==> whole@ == release@ + "+"@ + v@.build,
        v@.pre.len() > 0 && v@.build.len() > 0 ==> whole@ == release@ + "-"@ + v@.pre + "+"@
            + v@.build,
{
    reveal_strlit(".");
    reveal_strlit("-");
    reveal_strlit("+");
    assert("."@ =~= seq!['.']);
    assert("-"@ =~= seq!['-']);
    assert("+"@ =~= seq!['+']);
    assert(release@ =~= text::decimal(v.major as nat) + "."@ + text::decimal(v.minor as nat)
        + "."@ + text::decimal(v.patch as nat));
    if v@.pre.len() == 0 && v@.build.len() == 0 {
        assert(whole@ =~= release@);
    } else if v@.build.len() == 0 {
        assert(whole@ =~= release@ + "-"@ + v@.pre);
    } else if v@.pre.len() == 0 {
        assert(whole@ =~= release@ + "+"@ + v@.build);
    } else {
        assert(whole@ =~= release@ + "-"@ + v@.pre + "+"@ + v@.build);
    }
}

/// What a version is written as is read as that version again, and what is read as a version is
/// what that version is written as.
pub proof fn law_written_versions_are_read(
    v: &Version,
    written: String,
    given: &str,
    read: Result<Version, String>,
)
    requires
        v@.valid(),
        call_ensures(Version::to_text, (v,), written),
        call_ensures(Version::parse, (given,), read),
    ensures
        given@ == written@ ==> read is Ok && read->Ok_0@ == v@,
        read is Ok ==> read->Ok_0@.valid() && version::version_text(read->Ok_0@) == given@,
{
    if given@ == written@ {
        version::law_version_of_text(v@);
    }
}

/// A new version has the given numbers and no metadata.
pub proof fn law_new_version(major: u64, minor: u64, patch: u64, res: Version)
    requires
        call_ensures(Version::new, (major, minor, patch), res),
    ensures
        res.major == major,
        res.minor == minor,
        res.patch == patch,
        res.pre@.len() == 0,
        res.build@.len() == 0,
{
    assert(res@.pre == res.pre@ && res@.build == res.build@);
}

/// The first number in which two versions differ decides which comes first. A version with
/// pre-release metadata comes before the release with the same numbers, and one with build metadata
/// behind the one without.
pub proof fn law_compare(a: &Version, b: &Version, res: Order, back: Order)
    requires
        a@.valid(),
        b@.valid(),
        call_ensures(Version::compare, (a, b), res),
        call_ensures(Version::compare, (b, a), back),
    ensures
        a.major < b.major ==> res is Less,
        a.major > b.major ==> res is Greater,
        a.major == b.major && a.minor < b.minor ==> res is Less,
        a.major == b.major && a.minor > b.minor ==> res is Greater,
        a.major == b.major && a.minor == b.minor && a.patch < b.patch ==> res is Less,
        a.major == b.major && a.minor == b.minor && a.patch > b.patch ==> res is Greater,
        a.major == b.major && a.minor == b.minor && a.patch == b.patch ==> {
            &&& a.pre@.len() == 0 && b.pre@.len() > 0 ==> res is Greater
            &&& a.pre@.len() > 0 && b.pre@.len() == 0 ==> res is Less
            &&& a.pre@ == b.pre@ && a.build@.len() == 0 && b.build@.len() > 0 ==> res is Less
            &&& a.pre@ == b.pre@ && a.build@.len() > 0 && b.build@.len() == 0 ==> res is Greater
            &&& a.pre@ == b.pre@ && a.build@ == b.build@ ==> res is Equal
        },
        res is Equal ==> a@ == b@,
        res is Less <==> back is Greater,
        res is Equal <==> back is Equal,
{
    assert(a@.pre == a.pre@ && b@.pre == b.pre@);
    assert(a@.build == a.build@ && b@.build == b.build@);
}

/// Versions that follow on each other do so throughout.
pub proof fn law_compare_is_transitive(
    a: &Version,
    b: &Version,
    c: &Version,
    ab: Order,
    bc: Order,
    ac: Order,
)
    requires
        a@.valid(),
        b@.valid(),
        c@.valid(),
        call_ensures(Version::compare, (a, b), ab),
        call_ensures(Version::compare, (b, c), bc),
        call_ensures(Version::compare, (a, c), ac),
        ab is Less,
        bc is Less,
    ensures
        !(ac is Greater),
{
    assert(version::version_order(a@, b@) <= 0);
}

/// Versions are the same just if all their parts are.
pub proof fn law_same(a: &Version, b: &Version, res: bool)
    requires
        call_ensures(Version::same, (a, b), res),
    ensures
        res <==> a.major == b.major && a.minor == b.minor && a.patch == b.patch && a.pre@ == b.pre@
            && a.build@ == b.build@,
{
    if a.major == b.major && a.minor == b.minor && a.patch == b.patch && a.pre@ == b.pre@
        && a.build@ == b.build@ {
        assert(a@ =~= b@);
    }
    if res {
        assert(a@.pre == a.pre@ && b@.pre == b.pre@);
        assert(a@.build == a.build@ && b@.build == b.build@);
    }
}

/// Sorting keeps all versions, each as often as it was there, and puts none behind a greater one.
pub proof fn law_sort(given: Vec<Version>, res: Vec<Version>, v: VersionView, i: int, j: int)
    requires
        version::all_valid::<Version>(version::views(given@)),
        call_ensures(version::sort_by_version::<Version>, (given,), res),
    ensures
        res@.len() == given@.len(),
        version::views(res@).contains(v) <==> version::views(given@).contains(v),
        version::views(res@).to_multiset().count(v) == version::views(
            given@,
        ).to_multiset().count(v),
        0 <= i < j < res@.len() ==> version::version_order(res@[i]@, res@[j]@) <= 0,
        0 <= i < j < res@.len() ==> res@[i].major <= res@[j].major,
        0 <= i < j < res@.len() && res@[i].major == res@[j].major ==> res@[i].minor
            <= res@[j].minor,
        0 <= i < j < res@.len() && res@[i].major == res@[j].major && res@[i].minor
            == res@[j].minor ==> res@[i].patch <= res@[j].patch,
{
    broadcast use vstd::seq_lib::group_to_multiset_ensures;

    let (a, b) = (version::views(given@), version::views(res@));
    assert(a.len() == given@.len() && b.len() == res@.len());
    vstd::seq_lib::to_multiset_len(a);
    vstd::seq_lib::to_multiset_len(b);
    assert(a.contains(v) <==> a.to_multiset().contains(v));
    assert(b.contains(v) <==> b.to_multiset().contains(v));
    if 0 <= i < j < res@.len() {
        assert(b[i] == res@[i]@ && b[j] == res@[j]@);
        version::law_sorted_numbers::<Version>(b, i, j);
    }
}

/// Versions that are told to hold the same do, and so do those of compilers.
pub proof fn law_views_tell_versions_apart(
    a: Version,
    b: Version,
    x: CompilerVersion,
    y: CompilerVersion,
)
    ensures
        a@ == b@ ==> a.major == b.major && a.minor == b.minor && a.patch == b.patch && a.pre@
            == b.pre@ && a.build@ == b.build@,
        x@ == y@ ==> (x is Installed <==> y is Installed),
        x@ == y@ && x is Installed ==> x->Installed_0@ == y->Installed_0@,
        x@ == y@ && x is Remote ==> x->Remote_0@ == y->Remote_0@,
{
}

/// An identifier of metadata is of letters, digits and hyphens, and in pre-release metadata it is
/// no number with a zero in front. Identifiers are parted by dots, and metadata may be empty.
pub proof fn law_metadata(front: Seq<char>, id: Seq<char>)
    requires
        forall|i: int| 0 <= i < id.len() ==> #[trigger] id[i] != '.',
    ensures
        version::is_pre(Seq::empty()),
        version::is_build(Seq::empty()),
        version::is_build(id) <==> forall|i: int|
            0 <= i < id.len() ==> version::is_identifier_char(#[trigger] id[i]),
        version::is_pre(id) <==> (forall|i: int|
            0 <= i < id.len() ==> version::is_identifier_char(#[trigger] id[i])) && !(id.len() > 1
            && id[0] == '0' && forall|i: int| 0 <= i < id.len() ==> '0' <= #[trigger] id[i] <= '9'),
        front.len() > 0 && id.len() > 0 ==> (version::is_build(front.push('.') + id)
            <==> version::is_build(front) && version::is_build(id)),
        front.len() > 0 && id.len() > 0 ==> (version::is_pre(front.push('.') + id)
            <==> version::is_pre(front) && version::is_pre(id)),
{
    let sep = Separator::Char('.');
    text::lemma_pieces_of_one(id, sep);
    let own = text::pieces(id, sep);
    assert(own[0] == id);
    if id.len() > 0 {
        assert(version::is_identifier(id) <==> forall|i: int|
            0 <= i < id.len() ==> version::is_identifier_char(#[trigger] id[i]));
        assert(version::is_build(id) <==> version::is_identifier(own[0]));
        assert(version::is_pre(id) <==> version::is_identifier(own[0])
            && !version::has_leading_zero(own[0]));
    }
    if front.len() > 0 && id.len() > 0 {
        let whole = front.push('.') + id;
        text::lemma_pieces_of_joined(front, '.', id, sep);
        let (a, all) = (text::pieces(front, sep), text::pieces(whole, sep));
        assert(all =~= a.push(id));
        assert forall|i: int| 0 <= i < a.len() implies all[i] == a[i] by {}
        assert(all[a.len() as int] == id);
        if version::is_build(whole) {
            assert forall|i: int| 0 <= i < a.len() implies version::is_identifier(
                #[trigger] a[i],
            ) by {
                assert(version::is_identifier(all[i]));
            }
        }
        if version::is_build(front) && version::is_build(id) {
            assert forall|i: int| 0 <= i < all.len() implies version::is_identifier(
                #[trigger] all[i],
            ) by {
                if i < a.len() {
                    assert(version::is_identifier(a[i]));
                }
            }
        }
        if version::is_pre(whole) {
            assert forall|i: int| 0 <= i < a.len() implies version::is_identifier(#[trigger] a[i])
                && !version::has_leading_zero(a[i]) by {
                assert(version::is_identifier(all[i]) && !version::has_leading_zero(all[i]));
            }
        }
        if version::is_pre(front) && version::is_pre(id) {
            assert forall|i: int| 0 <= i < all.len() implies version::is_identifier(
                #[trigger] all[i],
            ) && !version::has_leading_zero(all[i]) by {
                if i < a.len() {
                    assert(version::is_identifier(a[i]) && !version::has_leading_zero(a[i]));
                }
            }
        }
    }
}

/// Identifiers hold the letters of the alphabet, digits and hyphens, by their numbers.
pub proof fn law_identifier_characters(c: char)
    ensures
        version::is_identifier_char(c) <==> 48 <= c as u32 <= 57 || 65 <= c as u32 <= 90 || 97
            <= c as u32 <= 122 || c as u32 == 45,
{
}

} // verus!
