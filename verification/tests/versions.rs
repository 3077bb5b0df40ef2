use foundry_compilers::version::{
    sort_by_version, CompilerVersion, Order, Version, Versioned,
};

fn version(text: &str) -> Version {
    Version::parse(text).unwrap()
}

#[test]
fn versions_are_read_as_semver_reads_them() {
    let texts = vec![
        "0.8.20", "1.0.0-rc.1", "0.8.27-1.0.1", "0.8.18+commit.87f61d96.Linux.gcc", "1.2.3-a+b",
        "18446744073709551615.0.0", "1.2.3-0", "1.2.3-a-b.0x", "1.2.3+001",
    ];
    for t in texts {
        let ours = version(t);
        let theirs = semver::Version::parse(t).unwrap();
        assert_eq!(ours.major, theirs.major);
        assert_eq!(ours.minor, theirs.minor);
        assert_eq!(ours.patch, theirs.patch);
        assert_eq!(ours.pre, theirs.pre.as_str());
        assert_eq!(ours.build, theirs.build.as_str());
        assert_eq!(ours.to_text(), t);
        assert_eq!(ours.to_text(), theirs.to_string());
    }
}

#[test]
fn texts_that_are_no_versions_are_refused() {
    let texts = vec![
        "", "1", "1.2", "v1.2.3", "1.2.3-", "1.2.3+", "01.2.3", "1.02.3", "1.2.3-01", "1.2.3-a..b",
        "18446744073709551616.0.0", "1.2.3 ", "1.2.3-ä", "1.2.3.4", "a.b.c", "1.2.3+commit.g++",
    ];
    for t in texts {
        let error = Version::parse(t).unwrap_err();
        assert_eq!(error, semver::Version::parse(t).unwrap_err().to_string(), "{t}");
    }
}

#[test]
fn versions_are_ordered_as_semver_orders_them() {
    let texts = vec![
        "0.8.9", "0.8.10", "0.8.10-rc.1", "0.8.10-rc.2", "0.8.10-rc.10", "0.8.10-alpha", "0.8.10+a",
        "0.8.10+b", "0.8.10+01", "0.8.10+1", "0.9.0", "1.0.0", "1.0.0-1", "1.0.0-a.1", "1.0.0-a",
    ];
    for a in texts.iter() {
        for b in texts.iter() {
            let theirs =
                semver::Version::parse(a).unwrap().cmp(&semver::Version::parse(b).unwrap());
            let ours = match version(a).compare(&version(b)) {
                Order::Less => std::cmp::Ordering::Less,
                Order::Equal => std::cmp::Ordering::Equal,
                Order::Greater => std::cmp::Ordering::Greater,
            };
            assert_eq!(ours, theirs, "{a} {b}");
            assert_eq!(version(a).same(&version(b)), a == b);
        }
    }
}

#[test]
fn releases_are_written_without_metadata() {
    assert_eq!(version("0.8.27-1.0.1+x").release_string(), "0.8.27");
    assert_eq!(Version::new(1, 0, 1).to_text(), "1.0.1");
    assert!(Version::new(1, 0, 1).same(&version("1.0.1")));
}

#[test]
fn sorting_keeps_all_versions() {
    let list = vec!["0.8.10", "0.4.12", "0.8.9", "0.8.10-rc.1", "0.4.12"];
    let sorted = sort_by_version(list.into_iter().map(version).collect());
    let texts: Vec<String> = sorted.iter().map(|v| v.to_text()).collect();
    assert_eq!(texts, vec!["0.4.12", "0.4.12", "0.8.9", "0.8.10-rc.1", "0.8.10"]);
}

#[test]
fn compiler_versions_are_sorted_by_their_versions() {
    let list = vec![
        CompilerVersion::Remote(version("0.8.10")),
        CompilerVersion::Installed(version("0.8.20")),
        CompilerVersion::Installed(version("0.4.26")),
    ];
    let sorted = sort_by_version(list);
    let texts: Vec<String> = sorted.iter().map(|v| v.version().to_text()).collect();
    assert_eq!(texts, vec!["0.4.26", "0.8.10", "0.8.20"]);
}
