//! What holds of the commands that `zksolc` is called with.
use crate::compilers::zksolc;
use crate::compilers::zksolc::ZkSolc;
use crate::path;
use crate::text;
use vstd::prelude::*;
use vstd::string::*;

verus! {

/// Whatever it is called for, `zksolc` is told last that its input is JSON.
pub proof fn law_standard_json_comes_last(zksolc: ZkSolc, yul: bool)
    ensures
        zksolc.compile_args(yul).len() > 0,
        zksolc.compile_args(yul).last() == "--standard-json"@,
{
}

/// The arguments for Yul are those for Solidity without `--solc` and its value, which stand right
/// before the last one.
pub proof fn law_yul_leaves_out_solc(zksolc: ZkSolc)
    ensures
        match zksolc.solc {
            Some(solc) => zksolc.compile_args(false) == zksolc.compile_args(true).drop_last() + seq![
                "--solc"@,
                solc@,
                "--standard-json"@,
            ],
            None => zksolc.compile_args(false) == zksolc.compile_args(true),
        },
{
    match zksolc.solc {
        Some(solc) => {
            assert(zksolc.compile_args(false) =~= zksolc.compile_args(true).drop_last() + seq![
                "--solc"@,
                solc@,
                "--standard-json"@,
            ]);
        },
        None => {
            assert(zksolc.compile_args(false) =~= zksolc.compile_args(true));
        },
    }
}

/// The paths that files may be read from stand in front of all other arguments, which do not
/// depend on them.
pub proof fn law_allow_paths_come_first(zksolc: ZkSolc, bare: ZkSolc, yul: bool)
    requires
        bare == (ZkSolc { allow_paths: bare.allow_paths, ..zksolc }),
        bare.allow_paths@.len() == 0,
    ensures
        zksolc.allow_paths@.len() == 0 ==> zksolc.compile_args(yul) == bare.compile_args(yul),
        zksolc.allow_paths@.len() > 0 ==> zksolc.compile_args(yul) == seq![
            "--allow-paths"@,
            text::joined(zksolc.allow_paths@.map_values(|entry: (Seq<char>, ())| entry.0), ","@),
        ] + bare.compile_args(yul),
{
    assert(zksolc::path_list(zksolc.allow_paths@) =~= zksolc.allow_paths@.map_values(
        |entry: (Seq<char>, ())| entry.0,
    ));
    if zksolc.allow_paths@.len() > 0 {
        assert(zksolc.compile_args(yul) =~= seq![
            "--allow-paths"@,
            text::joined(zksolc.allow_paths@.map_values(|entry: (Seq<char>, ())| entry.0), ","@),
        ] + bare.compile_args(yul));
    } else {
        assert(zksolc.compile_args(yul) =~= bare.compile_args(yul));
    }
}

/// A base path is named after the paths to look for imports in, and in front of all arguments
/// that there are without it; without a base path no path to look for imports in is named.
pub proof fn law_base_path_is_named(zksolc: ZkSolc, bare: ZkSolc, yul: bool)
    requires
        zksolc.allow_paths@.len() == 0,
        zksolc.base_path is Some,
        bare == (ZkSolc { base_path: None, ..zksolc }),
    ensures
        zksolc.compile_args(yul) == zksolc::include_args(
            zksolc.include_paths@.map_values(|entry: (Seq<char>, ())| entry.0),
            zksolc.base_path->0@,
        ) + seq!["--base-path"@, zksolc.base_path->0@] + bare.compile_args(yul),
        zksolc.solc is None || yul ==> bare.compile_args(yul) == seq!["--standard-json"@],
{
    let all = zksolc.include_paths@.map_values(|entry: (Seq<char>, ())| entry.0);
    let base = zksolc.base_path->0@;
    assert(zksolc::path_list(zksolc.include_paths@) =~= all);
    assert(zksolc.compile_args(yul) =~= zksolc::include_args(all, base) + seq![
        "--base-path"@,
        base,
    ] + bare.compile_args(yul));
    if zksolc.solc is None || yul {
        assert(bare.compile_args(yul) =~= seq!["--standard-json"@]);
    }
}

/// Each path to look for imports in is named by itself, in the given order, unless it is the base
/// path.
pub proof fn law_include_paths_are_named(
    some: Seq<Seq<char>>,
    more: Seq<Seq<char>>,
    path: Seq<char>,
    base: Seq<char>,
)
    ensures
        zksolc::include_args(some + more, base) == zksolc::include_args(some, base)
            + zksolc::include_args(more, base),
        path::components(path) == path::components(base) ==> zksolc::include_args(
            seq![path],
            base,
        ).len() == 0,
        path::components(path) != path::components(base) ==> zksolc::include_args(
            seq![path],
            base,
        ) == seq!["--include-path"@, path],
    decreases more.len(),
{
    reveal_with_fuel(zksolc::include_args, 2);
    assert(seq![path].drop_last() =~= Seq::<Seq<char>>::empty());
    if path::components(path) != path::components(base) {
        assert(zksolc::include_args(seq![path], base) =~= seq!["--include-path"@, path]);
    }
    if more.len() == 0 {
        assert(some + more =~= some);
        assert(zksolc::include_args(some, base) + zksolc::include_args(more, base)
            =~= zksolc::include_args(some, base));
    } else {
        law_include_paths_are_named(some, more.drop_last(), path, base);
        assert((some + more).drop_last() =~= some + more.drop_last());
        assert(zksolc::include_args(some + more, base) =~= zksolc::include_args(some, base)
            + zksolc::include_args(more, base));
    }
}

/// Joined parts stand one behind the other, with the separator between each two.
pub proof fn law_joined(parts: Seq<Seq<char>>, last: Seq<char>, sep: Seq<char>)
    ensures
        parts.len() > 0 ==> text::joined(parts.push(last), sep) == text::joined(parts, sep) + sep
            + last,
        parts.len() == 0 ==> text::joined(parts.push(last), sep) == last,
{
    assert(parts.push(last).drop_last() =~= parts);
}

} // verus!
