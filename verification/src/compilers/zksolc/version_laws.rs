//! What holds of the versions that compilers tell.
use crate::compilers::zksolc;
use crate::compilers::zksolc::{SolcVersionInfo, SolcVersionInfoView, ZkSolcOS};
use crate::error::{SolcError, SolcErrorView};
use crate::text;
use crate::text::Separator;
use crate::version;
use crate::version::{Version, VersionView};
use vstd::prelude::*;
use vstd::string::*;

verus! {

/// The first character of a version is a digit.
proof fn lemma_first_is_digit(v: VersionView)
    ensures
        version::version_text(v).len() > 0,
        text::is_digit(version::version_text(v)[0]),
{
    text::lemma_decimal_digits(v.major as nat);
    assert(version::version_text(v)[0] == text::decimal(v.major as nat)[0]);
}

/// A version has no two `+`.
proof fn lemma_one_plus(v: VersionView, i: int, j: int)
    requires
        v.valid(),
        0 <= i < j < version::version_text(v).len(),
    ensures
        !(version::version_text(v)[i] == '+' && version::version_text(v)[j] == '+'),
{
    let release = version::release_text(v);
    let whole = version::version_text(v);
    let behind = whole.skip(release.len() as int);
    assert(behind =~= version::metadata_text(v));
    let front = if v.pre.len() > 0 {
        1 + v.pre.len()
    } else {
        0
    };
    let at = release.len() + front;
    assert forall|k: int| 0 <= k < whole.len() && k != at implies #[trigger] whole[k] != '+' by {
        if k < release.len() {
            version::lemma_release_char(v, k);
            assert(whole[k] == release[k]);
        } else {
            assert(whole[k] == behind[k - release.len()]);
            if k < at {
                if k > release.len() {
                    assert(whole[k] == v.pre[k - release.len() - 1]);
                    version::lemma_metadata_char(v.pre, k - release.len() - 1);
                }
            } else {
                assert(whole[k] == v.build[k - at - 1]);
                version::lemma_metadata_char(v.build, k - at - 1);
            }
        }
    }
}

/// Where nothing is replaced.
proof fn lemma_nothing_replaced(s: Seq<char>)
    requires
        forall|i: int, j: int|
            0 <= i < j < s.len() ==> !(#[trigger] s[i] == '+' && #[trigger] s[j] == '+'),
    ensures
        text::replaced(s, ".g++"@, ".gcc"@) == s,
    decreases s.len(),
{
    reveal_strlit(".g++");
    if s.len() > 0 {
        if text::starts_with(s, ".g++"@) {
            assert(s.take(4)[2] == '+' && s.take(4)[3] == '+');
            assert(s[2] == '+' && s[3] == '+');
        }
        let rest = s.drop_first();
        assert forall|i: int, j: int| 0 <= i < j < rest.len() implies !(#[trigger] rest[i] == '+'
            && #[trigger] rest[j] == '+') by {
            assert(rest[i] == s[i + 1] && rest[j] == s[j + 1]);
        }
        lemma_nothing_replaced(rest);
        assert(seq![s[0]] + rest =~= s);
    }
}

/// Where only what stands at the end is replaced.
proof fn lemma_end_replaced(s: Seq<char>)
    requires
        forall|i: int, j: int|
            0 <= i < j < s.len() ==> !(#[trigger] s[i] == '+' && #[trigger] s[j] == '+'),
    ensures
        text::replaced(s + ".g++"@, ".g++"@, ".gcc"@) == s + ".gcc"@,
    decreases s.len(),
{
    reveal_strlit(".g++");
    reveal_strlit(".gcc");
    let whole = s + ".g++"@;
    if s.len() == 0 {
        assert(whole =~= ".g++"@);
        assert(whole.take(4) =~= ".g++"@);
        assert(whole.skip(4) =~= Seq::<char>::empty());
        assert(".gcc"@ + text::replaced(whole.skip(4), ".g++"@, ".gcc"@) =~= s + ".gcc"@);
    } else {
        if text::starts_with(whole, ".g++"@) {
            assert(whole.take(4)[1] == 'g' && whole.take(4)[2] == '+' && whole.take(4)[3] == '+');
            assert(whole[1] == 'g' && whole[2] == '+' && whole[3] == '+');
            if s.len() >= 4 {
                assert(s[2] == '+' && s[3] == '+');
            } else {
                assert(whole[s.len() as int] == '.');
            }
        }
        let rest = s.drop_first();
        assert forall|i: int, j: int| 0 <= i < j < rest.len() implies !(#[trigger] rest[i] == '+'
            && #[trigger] rest[j] == '+') by {
            assert(rest[i] == s[i + 1] && rest[j] == s[j + 1]);
        }
        lemma_end_replaced(rest);
        assert(whole.drop_first() =~= rest + ".g++"@);
        assert(seq![s[0]] + (rest + ".gcc"@) =~= s + ".gcc"@);
    }
}

/// A prefix is taken off, once where it does not follow on itself.
proof fn lemma_prefix_taken_off(prefix: Seq<char>, s: Seq<char>)
    requires
        prefix.len() > 0,
        s.len() > 0 ==> s[0] != prefix[0],
    ensures
        text::without_prefixes(prefix + s, prefix) == s,
        text::without_prefixes(s, prefix) == s,
{
    assert((prefix + s).take(prefix.len() as int) =~= prefix);
    assert((prefix + s).skip(prefix.len() as int) =~= s);
    if text::starts_with(s, prefix) {
        assert(s.take(prefix.len() as int)[0] == s[0]);
    }
    assert(text::without_prefixes(s, prefix) == s);
    assert(text::starts_with(prefix + s, prefix));
}

/// `solc` has the version that stands behind `Version: ` on the second line that is not blank;
/// whatever stands on the others.
pub proof fn law_solc_version_is_told(said: Seq<char>, v: VersionView)
    requires
        v.valid(),
        zksolc::filled_lines(said).len() >= 2,
        zksolc::filled_lines(said)[1] == "Version: "@ + version::version_text(v),
    ensures
        zksolc::told_versions(said) matches Ok(info) && info.version == v,
{
    let written = version::version_text(v);
    reveal_strlit("Version: ");
    lemma_first_is_digit(v);
    lemma_prefix_taken_off("Version: "@, written);
    assert forall|i: int, j: int| 0 <= i < j < written.len() implies !(#[trigger] written[i] == '+'
        && #[trigger] written[j] == '+') by {
        lemma_one_plus(v, i, j);
    }
    lemma_nothing_replaced(written);
    version::law_version_of_text(v);
}

/// A `solc` that was built with `g++` tells so in a way that is no version; it is read as `gcc`.
pub proof fn law_solc_version_with_gcc_is_told(said: Seq<char>, v: VersionView, front: Seq<char>)
    requires
        v.valid(),
        version::version_text(v) == front + ".gcc"@,
        front.len() > 0,
        zksolc::filled_lines(said).len() >= 2,
        zksolc::filled_lines(said)[1] == "Version: "@ + front + ".g++"@,
    ensures
        zksolc::told_versions(said) matches Ok(info) && info.version == v,
{
    let written = version::version_text(v);
    reveal_strlit("Version: ");
    lemma_first_is_digit(v);
    assert(front[0] == written[0]);
    lemma_prefix_taken_off("Version: "@, front + ".g++"@);
    assert("Version: "@ + front + ".g++"@ =~= "Version: "@ + (front + ".g++"@));
    assert forall|i: int, j: int| 0 <= i < j < front.len() implies !(#[trigger] front[i] == '+'
        && #[trigger] front[j] == '+') by {
        assert(front[i] == written[i] && front[j] == written[j]);
        lemma_one_plus(v, i, j);
    }
    lemma_end_replaced(front);
    version::law_version_of_text(v);
}

/// The ZKsync version of `solc` is the one behind `ZKsync: ` on the last line that is not blank.
pub proof fn law_zksync_version_is_told(said: Seq<char>, v: VersionView)
    requires
        v.valid(),
        zksolc::filled_lines(said).len() >= 2,
        zksolc::filled_lines(said).last() == "ZKsync: "@ + version::version_text(v),
        zksolc::told_versions(said) is Ok,
    ensures
        zksolc::told_versions(said)->Ok_0.zksync_version == Some(v),
{
    let written = version::version_text(v);
    let line = zksolc::filled_lines(said).last();
    reveal_strlit("ZKsync: ");
    reveal_strlit("ZKsync:");
    reveal_strlit("ZKsync");
    let blank = seq![' '] + written;
    assert(line.take(6) =~= "ZKsync"@);
    assert(line =~= "ZKsync:"@ + blank);
    lemma_prefix_taken_off("ZKsync:"@, blank);
    lemma_first_is_digit(v);
    let last = written[written.len() - 1];
    version::lemma_version_char(v, written.len() - 1);
    assert(!text::is_white_space(last));
    assert(blank.last() == last);
    assert(text::trim_end(blank) == blank);
    assert(blank.drop_first() =~= written);
    assert(text::trim_start(written) == written);
    assert(text::trim(blank) == written);
    version::law_version_of_text(v);
}

/// A `solc` whose last line is not about ZKsync has no ZKsync version.
pub proof fn law_no_zksync_version_is_told(said: Seq<char>, i: int)
    requires
        zksolc::told_versions(said) is Ok,
        0 <= i < 6,
        zksolc::filled_lines(said).last().len() <= i || zksolc::filled_lines(said).last()[i]
            != "ZKsync"@[i],
    ensures
        zksolc::told_versions(said)->Ok_0.zksync_version is None,
{
    reveal_strlit("ZKsync");
    let line = zksolc::filled_lines(said).last();
    if text::starts_with(line, "ZKsync"@) {
        assert(line.take(6)[i] == line[i]);
    }
}

/// Without a second line that is not blank no version of `solc` is told.
pub proof fn law_no_solc_version_is_told(said: Seq<char>)
    requires
        zksolc::filled_lines(said).len() < 2,
    ensures
        zksolc::told_versions(said) == Err::<SolcVersionInfoView, SolcErrorView>(
            SolcErrorView::Message("Version not found in Solc output"@),
        ),
{
}

/// `zksolc` has the first version among the words of the last line that is not blank, where a `v`
/// may stand in front.
pub proof fn law_zksolc_version_is_told(said: Seq<char>, i: int, v: VersionView, with_v: bool)
    requires
        v.valid(),
        zksolc::filled_lines(said).len() > 0,
        0 <= i < text::words(zksolc::filled_lines(said).last()).len(),
        text::words(zksolc::filled_lines(said).last())[i] == (if with_v {
            "v"@ + version::version_text(v)
        } else {
            version::version_text(v)
        }),
        forall|j: int, w: VersionView|
            0 <= j < i && w.valid() ==> #[trigger] text::without_prefixes(
                text::words(zksolc::filled_lines(said).last())[j],
                "v"@,
            ) != #[trigger] version::version_text(w),
    ensures
        zksolc::told_version(said) == Ok::<VersionView, SolcErrorView>(v),
{
    let words = text::words(zksolc::filled_lines(said).last());
    reveal_strlit("v");
    lemma_first_is_digit(v);
    lemma_prefix_taken_off("v"@, version::version_text(v));
    version::law_version_of_text(v);
    assert forall|j: int| 0 <= j < i implies version::version_of_text(
        #[trigger] text::without_prefixes(words[j], "v"@),
    ) is None by {
        let stripped = text::without_prefixes(words[j], "v"@);
        if version::version_of_text(stripped) is Some {
            let w = choose|w: VersionView|
                #[trigger] w.valid() && version::version_text(w) == stripped;
            assert(w.valid() && version::version_text(w) == stripped);
        }
    }
    lemma_first_version(words, i, v);
}

proof fn lemma_first_version(words: Seq<Seq<char>>, i: int, v: VersionView)
    requires
        0 <= i < words.len(),
        version::version_of_text(text::without_prefixes(words[i], "v"@)) == Some(v),
        forall|j: int|
            0 <= j < i ==> version::version_of_text(
                #[trigger] text::without_prefixes(words[j], "v"@),
            ) is None,
    ensures
        zksolc::first_version(words) == Some(v),
    decreases i,
{
    if i > 0 {
        let rest = words.drop_first();
        assert(version::version_of_text(text::without_prefixes(words[0], "v"@)) is None);
        assert forall|j: int| 0 <= j < i - 1 implies version::version_of_text(
            #[trigger] text::without_prefixes(rest[j], "v"@),
        ) is None by {
            assert(rest[j] == words[j + 1]);
        }
        lemma_first_version(rest, i - 1, v);
    }
}

/// Where no version of `zksolc` is told, it is said what is missing.
pub proof fn law_no_zksolc_version_is_told(said: Seq<char>)
    ensures
        zksolc::filled_lines(said).len() == 0 ==> zksolc::told_version(said) == Err::<
            VersionView,
            SolcErrorView,
        >(SolcErrorView::Message("Version not found in zksolc output"@)),
        zksolc::filled_lines(said).len() > 0 && (forall|j: int, w: VersionView|
            0 <= j < text::words(zksolc::filled_lines(said).last()).len() && w.valid()
                ==> #[trigger] text::without_prefixes(
                text::words(zksolc::filled_lines(said).last())[j],
                "v"@,
            ) != #[trigger] version::version_text(w)) ==> zksolc::told_version(said) == Err::<
            VersionView,
            SolcErrorView,
        >(SolcErrorView::Message("Unable to retrieve version from zksolc output"@)),
{
    let words = text::words(zksolc::filled_lines(said).last());
    if forall|j: int, w: VersionView|
        0 <= j < words.len() && w.valid() ==> #[trigger] text::without_prefixes(words[j], "v"@)
            != #[trigger] version::version_text(w) {
        lemma_no_version(words);
    }
}

proof fn lemma_no_version(words: Seq<Seq<char>>)
    requires
        forall|j: int, w: VersionView|
            0 <= j < words.len() && w.valid() ==> #[trigger] text::without_prefixes(words[j], "v"@)
                != #[trigger] version::version_text(w),
    ensures
        zksolc::first_version(words) is None,
    decreases words.len(),
{
    if words.len() > 0 {
        let stripped = text::without_prefixes(words[0], "v"@);
        if version::version_of_text(stripped) is Some {
            let w = choose|w: VersionView|
                #[trigger] w.valid() && version::version_text(w) == stripped;
            assert(w.valid() && version::version_text(w) == stripped);
        }
        let rest = words.drop_first();
        assert forall|j: int, w: VersionView| 0 <= j < rest.len() && w.valid() implies
            #[trigger] text::without_prefixes(rest[j], "v"@) != #[trigger] version::version_text(
            w,
        ) by {
            assert(rest[j] == words[j + 1]);
        }
        lemma_no_version(rest);
    }
}

/// What is read is what is told: a version just where one is, and otherwise the error.
pub proof fn law_results_are_told(
    info: Result<SolcVersionInfo, SolcError>,
    told_info: Result<SolcVersionInfoView, SolcErrorView>,
    v: Result<Version, SolcError>,
    told: Result<VersionView, SolcErrorView>,
)
    requires
        zksolc::is_info(info, told_info),
        zksolc::is_version(v, told),
    ensures
        info is Ok <==> told_info is Ok,
        info is Ok ==> info->Ok_0.version@ == told_info->Ok_0.version,
        info is Ok && info->Ok_0.zksync_version is Some
            ==> told_info->Ok_0.zksync_version == Some(info->Ok_0.zksync_version->0@),
        info is Ok && info->Ok_0.zksync_version is None
            ==> told_info->Ok_0.zksync_version is None,
        info is Err ==> info->Err_0@ == told_info->Err_0,
        v is Ok <==> told is Ok,
        v is Ok ==> v->Ok_0@ == told->Ok_0,
        v is Err ==> v->Err_0@ == told->Err_0,
{
}

/// Just the lines that hold a character other than white space count, in their order.
pub proof fn law_filled_lines(said: Seq<char>, line: Seq<char>)
    ensures
        zksolc::filled_lines(said).contains(line) <==> text::lines(said).contains(line) && exists|
            i: int,
        |
            0 <= i < line.len() && !text::is_white_space(#[trigger] line[i]),
{
    let keep = |line: Seq<char>| text::trim(line).len() > 0;
    let all = text::lines(said);
    lemma_trimmed(line);
    if zksolc::filled_lines(said).contains(line) {
        all.lemma_filter_contains_rev(keep, line);
        let i = zksolc::filled_lines(said).index_of(line);
        all.lemma_filter_pred(keep, i);
    }
    if all.contains(line) && text::trim(line).len() > 0 {
        all.lemma_filter_contains(keep, all.index_of(line));
    }
}

proof fn lemma_trimmed(line: Seq<char>)
    ensures
        text::trim(line).len() > 0 <==> exists|i: int|
            0 <= i < line.len() && !text::is_white_space(#[trigger] line[i]),
{
    lemma_trim_end(line);
    lemma_trim_start(text::trim_end(line));
    let front = text::trim_end(line);
    if exists|i: int| 0 <= i < line.len() && !text::is_white_space(#[trigger] line[i]) {
        let i = choose|i: int| 0 <= i < line.len() && !text::is_white_space(#[trigger] line[i]);
        assert(front[i] == line[i]);
    }
    if text::trim(line).len() > 0 {
        let i = choose|i: int| 0 <= i < front.len() && !text::is_white_space(#[trigger] front[i]);
        assert(front[i] == line[i]);
    }
}

proof fn lemma_trim_end(line: Seq<char>)
    ensures
        text::trim_end(line).len() <= line.len(),
        text::trim_end(line) == line.take(text::trim_end(line).len() as int),
        forall|i: int|
            text::trim_end(line).len() <= i < line.len() ==> text::is_white_space(
                #[trigger] line[i],
            ),
    decreases line.len(),
{
    if line.len() > 0 && text::is_white_space(line.last()) {
        let front = line.drop_last();
        lemma_trim_end(front);
        assert forall|i: int| text::trim_end(line).len() <= i < line.len() implies
            text::is_white_space(#[trigger] line[i]) by {
            if i < front.len() {
                assert(front[i] == line[i]);
            }
        }
    } else {
        assert(line.take(line.len() as int) =~= line);
    }
}

proof fn lemma_trim_start(line: Seq<char>)
    ensures
        text::trim_start(line).len() > 0 <==> exists|i: int|
            0 <= i < line.len() && !text::is_white_space(#[trigger] line[i]),
    decreases line.len(),
{
    if line.len() > 0 {
        if text::is_white_space(line[0]) {
            let rest = line.drop_first();
            lemma_trim_start(rest);
            if exists|i: int| 0 <= i < line.len() && !text::is_white_space(#[trigger] line[i]) {
                let i = choose|i: int|
                    0 <= i < line.len() && !text::is_white_space(#[trigger] line[i]);
                assert(rest[i - 1] == line[i]);
            }
            if exists|i: int| 0 <= i < rest.len() && !text::is_white_space(#[trigger] rest[i]) {
                let i = choose|i: int|
                    0 <= i < rest.len() && !text::is_white_space(#[trigger] rest[i]);
                assert(rest[i] == line[i + 1]);
            }
        }
    }
}

/// The versions that are installed are those of all files that are versions, file by file.
pub proof fn law_installed_versions(
    os: ZkSolcOS,
    some: Seq<Seq<char>>,
    more: Seq<Seq<char>>,
    file: Seq<char>,
)
    ensures
        zksolc::installed_versions(os, some + more) == zksolc::installed_versions(os, some)
            + zksolc::installed_versions(os, more),
        zksolc::installed_versions(os, seq![file]) == (match zksolc::installed_version(os, file) {
            Some(v) => seq![v],
            None => Seq::empty(),
        }),
    decreases more.len(),
{
    reveal_with_fuel(zksolc::installed_versions, 2);
    assert(seq![file].drop_last() =~= Seq::<Seq<char>>::empty());
    assert(zksolc::installed_versions(os, seq![file]) =~= (match zksolc::installed_version(
        os,
        file,
    ) {
        Some(v) => seq![v],
        None => Seq::empty(),
    }));
    if more.len() == 0 {
        assert(some + more =~= some);
        assert(zksolc::installed_versions(os, some) + zksolc::installed_versions(os, more)
            =~= zksolc::installed_versions(os, some));
    } else {
        law_installed_versions(os, some, more.drop_last(), file);
        assert((some + more).drop_last() =~= some + more.drop_last());
        assert(zksolc::installed_versions(os, some + more) =~= zksolc::installed_versions(
            os,
            some,
        ) + zksolc::installed_versions(os, more));
    }
}

/// A file is recognised as a version only where its name begins with the name of the system and
/// that version, and ends with the release of the fork.
pub proof fn law_recognised_file_names(os: ZkSolcOS, file: Seq<char>, v: VersionView)
    requires
        zksolc::installed_version(os, file) == Some(v),
    ensures
        v.valid(),
        text::starts_with(file, os.solc_prefix() + version::version_text(v)),
        text::ends_with(file, version::version_text(version::release(1, 0, 1))),
{
    let prefix = os.solc_prefix();
    let rest = file.skip(prefix.len() as int);
    let hyphen = Separator::Char('-');
    let first = text::pieces(rest, hyphen)[0];
    let w = choose|w: VersionView| #[trigger] w.valid() && version::version_text(w) == first;
    assert(w.valid() && version::version_text(w) == first);
    lemma_first_piece(rest, hyphen);
    assert(file.take(prefix.len() as int) == prefix);
    let n = (prefix.len() + first.len()) as int;
    assert(file.take(n) =~= prefix + first) by {
        assert(rest.take(first.len() as int) == first);
        assert forall|i: int| 0 <= i < n implies file.take(n)[i] == (prefix + first)[i] by {
            if i < prefix.len() {
                assert(file.take(prefix.len() as int)[i] == file[i]);
            } else {
                assert(rest.take(first.len() as int)[i - prefix.len()] == file[i]);
            }
        }
    }
}

proof fn lemma_first_piece(s: Seq<char>, sep: Separator)
    ensures
        text::pieces(s, sep)[0].len() <= s.len(),
        s.take(text::pieces(s, sep)[0].len() as int) == text::pieces(s, sep)[0],
        text::pieces(s, sep).len() == 1 ==> text::pieces(s, sep)[0] == s,
    decreases s.len(),
{
    text::lemma_pieces_not_empty(s, sep);
    if s.len() > 0 {
        let front = s.drop_last();
        text::lemma_pieces_not_empty(front, sep);
        lemma_first_piece(front, sep);
        let before = text::pieces(front, sep);
        let first = text::pieces(s, sep)[0];
        if before.len() == 1 && !sep.holds(s.last()) {
            assert(first =~= s);
            assert(s.take(s.len() as int) =~= s);
        } else {
            assert(first == before[0]);
            assert(s.take(first.len() as int) =~= front.take(first.len() as int));
        }
    } else {
        assert(s.take(0) =~= Seq::<char>::empty());
        assert(text::pieces(s, sep)[0] =~= s);
    }
}

} // verus!
