//! Semantic versions.
use crate::text;
use crate::text::Separator;
use vstd::prelude::*;
use vstd::string::*;

verus! {

/// A version as `major.minor.patch`, with pre-release and build metadata.
///
/// `pre` and `build` are empty where the version has none.
#[derive(Debug, PartialEq, Eq)]
pub struct Version {
    pub major: u64,
    pub minor: u64,
    pub patch: u64,
    pub pre: String,
    pub build: String,
}

/// What a [`Version`] holds.
#[verifier::ext_equal]
pub struct VersionView {
    pub major: u64,
    pub minor: u64,
    pub patch: u64,
    pub pre: Seq<char>,
    pub build: Seq<char>,
}

impl View for Version {
    type V = VersionView;

    open spec fn view(&self) -> VersionView {
        VersionView {
            major: self.major,
            minor: self.minor,
            patch: self.patch,
            pre: self.pre@,
            build: self.build@,
        }
    }
}

/// Whether a character may stand in pre-release and build metadata.
pub open spec fn is_identifier_char(c: char) -> bool {
    text::is_digit(c) || 'a' <= c <= 'z' || 'A' <= c <= 'Z' || c == '-'
}

/// Whether a text is an identifier: not empty, of letters, digits and hyphens.
pub open spec fn is_identifier(s: Seq<char>) -> bool {
    s.len() > 0 && forall|i: int| 0 <= i < s.len() ==> is_identifier_char(#[trigger] s[i])
}

/// Whether a text is a number with a zero in front.
pub open spec fn has_leading_zero(s: Seq<char>) -> bool {
    &&& s.len() > 1
    &&& s[0] == '0'
    &&& forall|i: int| 0 <= i < s.len() ==> text::is_digit(#[trigger] s[i])
}

/// Whether a text can be build metadata: empty, or identifiers with dots between them.
pub open spec fn is_build(s: Seq<char>) -> bool {
    s.len() == 0 || forall|i: int|
        0 <= i < text::pieces(s, Separator::Char('.')).len() ==> is_identifier(
            #[trigger] text::pieces(s, Separator::Char('.'))[i],
        )
}

/// Whether a text can be pre-release metadata: empty, or identifiers with dots between
/// them, of which none is a number with a zero in front.
pub open spec fn is_pre(s: Seq<char>) -> bool {
    s.len() == 0 || forall|i: int|
        0 <= i < text::pieces(s, Separator::Char('.')).len() ==> {
            let id = #[trigger] text::pieces(s, Separator::Char('.'))[i];
            is_identifier(id) && !has_leading_zero(id)
        }
}

/// `major.minor.patch`
pub open spec fn release_text(v: VersionView) -> Seq<char> {
    text::decimal(v.major as nat) + seq!['.'] + text::decimal(v.minor as nat) + seq!['.']
        + text::decimal(v.patch as nat)
}

/// What stands behind the release: `-pre+build`, each part where it is not empty.
pub open spec fn metadata_text(v: VersionView) -> Seq<char> {
    (if v.pre.len() > 0 {
        seq!['-'] + v.pre
    } else {
        Seq::empty()
    }) + (if v.build.len() > 0 {
        seq!['+'] + v.build
    } else {
        Seq::empty()
    })
}

/// A version as it is written.
pub open spec fn version_text(v: VersionView) -> Seq<char> {
    release_text(v) + metadata_text(v)
}

impl VersionView {
    /// Whether the metadata is such as a version can have.
    pub open spec fn valid(self) -> bool {
        is_pre(self.pre) && is_build(self.build)
    }
}

/// The version without metadata.
pub open spec fn release(major: u64, minor: u64, patch: u64) -> VersionView {
    VersionView { major, minor, patch, pre: Seq::empty(), build: Seq::empty() }
}

/// The version that a text is, if it is one.
pub open spec fn version_of_text(text: Seq<char>) -> Option<VersionView> {
    if exists|v: VersionView| #[trigger] v.valid() && version_text(v) == text {
        Some(choose|v: VersionView| #[trigger] v.valid() && version_text(v) == text)
    } else {
        None
    }
}

/// What `semver` says of a text that is no version.
pub uninterp spec fn parse_error(text: Seq<char>) -> Seq<char>;

/// Parses a version with `semver::Version::parse`.
///
/// A text is accepted just where it is what some version is written as, and that is the
/// version that is returned: numbers below 2^64 without zeros in front, then `-` with
/// pre-release metadata, then `+` with build metadata, both optional. Otherwise the message
/// of the error is returned, of which nothing more is said.
#[verifier::external_body]
fn semver_parse(text: &str) -> (res: Result<Version, String>)
    ensures
        match res {
            Ok(v) => v@.valid() && version_text(v@) == text@,
            Err(message) => {
                &&& message@ == parse_error(text@)
                &&& forall|v: VersionView| #[trigger] v.valid() ==> version_text(v) != text@
            },
        },
{
    match semver::Version::parse(text) {
        Ok(v) => Ok(Version {
            major: v.major,
            minor: v.minor,
            patch: v.patch,
            pre: v.pre.as_str().to_string(),
            build: v.build.as_str().to_string(),
        }),
        Err(err) => Err(err.to_string()),
    }
}

proof fn lemma_same_split(a: Seq<char>, c: char, x: Seq<char>, b: Seq<char>, y: Seq<char>)
    requires
        a.push(c) + x == b.push(c) + y,
        forall|i: int| 0 <= i < a.len() ==> #[trigger] a[i] != c,
        forall|i: int| 0 <= i < b.len() ==> #[trigger] b[i] != c,
    ensures
        a == b,
        x == y,
{
    let s = a.push(c) + x;
    let t = b.push(c) + y;
    if a.len() < b.len() {
        assert(s[a.len() as int] == c);
        assert(t[a.len() as int] == b[a.len() as int]);
    } else if b.len() < a.len() {
        assert(t[b.len() as int] == c);
        assert(s[b.len() as int] == a[b.len() as int]);
    }
    assert forall|i: int| 0 <= i < a.len() implies a[i] == b[i] by {
        assert(s[i] == a[i] && t[i] == b[i]);
    }
    assert(a =~= b);
    assert(x.len() == s.len() - a.len() - 1 && y.len() == t.len() - b.len() - 1);
    assert forall|i: int| 0 <= i < x.len() implies x[i] == y[i] by {
        assert(s[a.len() + 1 + i] == x[i] && t[b.len() + 1 + i] == y[i]);
    }
    assert(x =~= y);
}

proof fn lemma_same_digits(a: Seq<char>, x: Seq<char>, b: Seq<char>, y: Seq<char>)
    requires
        a + x == b + y,
        forall|i: int| 0 <= i < a.len() ==> text::is_digit(#[trigger] a[i]),
        forall|i: int| 0 <= i < b.len() ==> text::is_digit(#[trigger] b[i]),
        x.len() > 0 ==> !text::is_digit(x[0]),
        y.len() > 0 ==> !text::is_digit(y[0]),
    ensures
        a == b,
        x == y,
{
    let s = a + x;
    let t = b + y;
    if a.len() < b.len() {
        assert(s[a.len() as int] == x[0]);
        assert(t[a.len() as int] == b[a.len() as int]);
    } else if b.len() < a.len() {
        assert(t[b.len() as int] == y[0]);
        assert(s[b.len() as int] == a[b.len() as int]);
    }
    assert forall|i: int| 0 <= i < a.len() implies a[i] == b[i] by {
        assert(s[i] == a[i] && t[i] == b[i]);
    }
    assert(a =~= b);
    assert forall|i: int| 0 <= i < x.len() implies x[i] == y[i] by {
        assert(s[a.len() + i] == x[i] && t[b.len() + i] == y[i]);
    }
    assert(x.len() == s.len() - a.len());
    assert(x =~= y);
}

/// Where all pieces are identifiers, the whole text holds no `+`.
proof fn lemma_pre_has_no_plus(s: Seq<char>, i: int)
    requires
        is_build(s),
        0 <= i < s.len(),
    ensures
        s[i] != '+',
{
    let dot = Separator::Char('.');
    if s[i] == '+' {
        text::lemma_char_in_pieces(s, dot, i);
        let (k, j) = choose|k: int, j: int|
            0 <= k < text::pieces(s, dot).len() && 0 <= j < text::pieces(s, dot)[k].len()
                && text::pieces(s, dot)[k][j] == s[i];
        assert(is_identifier(text::pieces(s, dot)[k]));
        assert(is_identifier_char(text::pieces(s, dot)[k][j]));
    }
}

/// A number holds digits only, hence no dots.
proof fn lemma_number_text(n: nat)
    ensures
        forall|i: int| 0 <= i < text::decimal(n).len() ==> text::is_digit(
            #[trigger] text::decimal(n)[i],
        ),
        forall|i: int| 0 <= i < text::decimal(n).len() ==> #[trigger] text::decimal(n)[i] != '.',
{
    text::lemma_decimal_digits(n);
}

/// A version is written as three numbers with dots between them, and metadata behind.
proof fn lemma_version_text(v: VersionView)
    ensures
        version_text(v) == text::decimal(v.major as nat).push('.') + (text::decimal(
            v.minor as nat,
        ).push('.') + (text::decimal(v.patch as nat) + metadata_text(v))),
        metadata_text(v).len() > 0 ==> !text::is_digit(metadata_text(v)[0]),
{
    let (x, y, z) = (
        text::decimal(v.major as nat),
        text::decimal(v.minor as nat),
        text::decimal(v.patch as nat),
    );
    assert(version_text(v) =~= x.push('.') + (y.push('.') + (z + metadata_text(v))));
}

/// A text is what at most one version is written as.
pub proof fn law_version_text_unique(a: VersionView, b: VersionView)
    requires
        a.valid(),
        b.valid(),
        version_text(a) == version_text(b),
    ensures
        a == b,
{
    let (a1, b1) = (text::decimal(a.major as nat), text::decimal(b.major as nat));
    let (a2, b2) = (text::decimal(a.minor as nat), text::decimal(b.minor as nat));
    let (a3, b3) = (text::decimal(a.patch as nat), text::decimal(b.patch as nat));
    let (am, bm) = (metadata_text(a), metadata_text(b));
    let (ay, by) = (a3 + am, b3 + bm);
    let (ax, bx) = (a2.push('.') + ay, b2.push('.') + by);
    assert(a1 == b1 && ax == bx) by {
        lemma_version_text(a);
        lemma_version_text(b);
        lemma_number_text(a.major as nat);
        lemma_number_text(b.major as nat);
        lemma_same_split(a1, '.', ax, b1, bx);
    }
    assert(a2 == b2 && ay == by) by {
        lemma_number_text(a.minor as nat);
        lemma_number_text(b.minor as nat);
        lemma_same_split(a2, '.', ay, b2, by);
    }
    assert(a3 == b3 && am == bm) by {
        lemma_version_text(a);
        lemma_version_text(b);
        lemma_number_text(a.patch as nat);
        lemma_number_text(b.patch as nat);
        lemma_same_digits(a3, am, b3, bm);
    }
    text::lemma_decimal_injective(a.major as nat, b.major as nat);
    text::lemma_decimal_injective(a.minor as nat, b.minor as nat);
    text::lemma_decimal_injective(a.patch as nat, b.patch as nat);
    lemma_same_metadata(a, b);
}

/// Reading what a version is written as gives the version back.
pub proof fn law_version_of_text(v: VersionView)
    requires
        v.valid(),
    ensures
        version_of_text(version_text(v)) == Some(v),
{
    let text = version_text(v);
    let read = choose|w: VersionView| #[trigger] w.valid() && version_text(w) == text;
    assert(read.valid() && version_text(read) == text);
    law_version_text_unique(read, v);
}

proof fn lemma_same_metadata(a: VersionView, b: VersionView)
    requires
        a.valid(),
        b.valid(),
        metadata_text(a) == metadata_text(b),
    ensures
        a.pre == b.pre,
        a.build == b.build,
{
    let (am, bm) = (metadata_text(a), metadata_text(b));
    assert(is_build(a.pre) && is_build(b.pre));
    assert forall|i: int| 0 <= i < a.pre.len() implies #[trigger] a.pre[i] != '+' by {
        lemma_pre_has_no_plus(a.pre, i);
    }
    assert forall|i: int| 0 <= i < b.pre.len() implies #[trigger] b.pre[i] != '+' by {
        lemma_pre_has_no_plus(b.pre, i);
    }
    if a.pre.len() > 0 {
        assert(am[0] == '-');
    } else if a.build.len() > 0 {
        assert(am[0] == '+');
    }
    if b.pre.len() > 0 {
        assert(bm[0] == '-');
    } else if b.build.len() > 0 {
        assert(bm[0] == '+');
    }
    let x = if a.pre.len() > 0 {
        seq!['-'] + a.pre
    } else {
        Seq::empty()
    };
    let y = if b.pre.len() > 0 {
        seq!['-'] + b.pre
    } else {
        Seq::empty()
    };
    assert forall|i: int| 0 <= i < x.len() implies #[trigger] x[i] != '+' by {}
    assert forall|i: int| 0 <= i < y.len() implies #[trigger] y[i] != '+' by {}
    if a.build.len() > 0 && b.build.len() > 0 {
        assert(am =~= x.push('+') + a.build);
        assert(bm =~= y.push('+') + b.build);
        lemma_same_split(x, '+', a.build, y, b.build);
    } else if a.build.len() > 0 {
        assert(am[x.len() as int] == '+');
        assert(bm =~= y);
    } else if b.build.len() > 0 {
        assert(bm[y.len() as int] == '+');
        assert(am =~= x);
    } else {
        assert(am =~= x && bm =~= y);
        assert(a.build =~= b.build);
    }
    assert(x == y);
    if a.pre.len() > 0 {
        assert(x.skip(1) =~= a.pre);
        assert(y.skip(1) =~= b.pre);
    } else {
        assert(a.pre =~= b.pre);
    }
}

impl Clone for Version {
    fn clone(&self) -> (res: Self)
        ensures
            res == *self,
    {
        Version {
            major: self.major,
            minor: self.minor,
            patch: self.patch,
            pre: self.pre.clone(),
            build: self.build.clone(),
        }
    }
}

/// How two values stand to each other.
#[derive(Debug, Clone, Copy, PartialEq, Eq, Structural)]
pub enum Order {
    Less,
    Equal,
    Greater,
}

impl Order {
    /// -1, 0 or 1
    pub open spec fn sign(self) -> int {
        match self {
            Order::Less => -1,
            Order::Equal => 0,
            Order::Greater => 1,
        }
    }
}

/// How `semver` orders pre-release metadata: -1, 0 or 1.
pub uninterp spec fn pre_order(a: Seq<char>, b: Seq<char>) -> int;

/// How `semver` orders build metadata: -1, 0 or 1.
pub uninterp spec fn build_order(a: Seq<char>, b: Seq<char>) -> int;

/// Compares pre-release metadata with the order of `semver::Prerelease`.
///
/// The order depends on the two texts alone, turning them round turns it round, only equal
/// texts are equal, what is not greater than a text is less than a greater one, and no
/// metadata at all is greater than any.
#[verifier::external_body]
fn compare_pre(a: &str, b: &str) -> (res: Order)
    requires
        is_pre(a@),
        is_pre(b@),
    ensures
        res.sign() == pre_order(a@, b@),
        res.sign() == -pre_order(b@, a@),
        (res is Equal) == (a@ == b@),
        res is Less ==> forall|c: Seq<char>|
            is_pre(c) && #[trigger] pre_order(c, a@) <= 0 ==> pre_order(c, b@) < 0,
        res is Greater ==> forall|c: Seq<char>|
            is_pre(c) && #[trigger] pre_order(a@, c) <= 0 ==> pre_order(b@, c) < 0,
        a@.len() == 0 && b@.len() > 0 ==> res is Greater,
{
    let a = semver::Prerelease::new(a).unwrap();
    match a.cmp(&semver::Prerelease::new(b).unwrap()) {
        std::cmp::Ordering::Less => Order::Less,
        std::cmp::Ordering::Equal => Order::Equal,
        std::cmp::Ordering::Greater => Order::Greater,
    }
}

/// Compares build metadata with the order of `semver::BuildMetadata`.
///
/// The order depends on the two texts alone, turning them round turns it round, only equal
/// texts are equal, what is not greater than a text is less than a greater one, and no
/// metadata at all is less than any.
#[verifier::external_body]
fn compare_build(a: &str, b: &str) -> (res: Order)
    requires
        is_build(a@),
        is_build(b@),
    ensures
        res.sign() == build_order(a@, b@),
        res.sign() == -build_order(b@, a@),
        (res is Equal) == (a@ == b@),
        res is Less ==> forall|c: Seq<char>|
            is_build(c) && #[trigger] build_order(c, a@) <= 0 ==> build_order(c, b@) < 0,
        res is Greater ==> forall|c: Seq<char>|
            is_build(c) && #[trigger] build_order(a@, c) <= 0 ==> build_order(b@, c) < 0,
        a@.len() == 0 && b@.len() > 0 ==> res is Less,
{
    let a = semver::BuildMetadata::new(a).unwrap();
    match a.cmp(&semver::BuildMetadata::new(b).unwrap()) {
        std::cmp::Ordering::Less => Order::Less,
        std::cmp::Ordering::Equal => Order::Equal,
        std::cmp::Ordering::Greater => Order::Greater,
    }
}

/// How two versions stand to each other: by their numbers, then by their metadata.
pub open spec fn version_order(a: VersionView, b: VersionView) -> int {
    if a.major != b.major {
        if a.major < b.major { -1 } else { 1 }
    } else if a.minor != b.minor {
        if a.minor < b.minor { -1 } else { 1 }
    } else if a.patch != b.patch {
        if a.patch < b.patch { -1 } else { 1 }
    } else if a.pre != b.pre {
        pre_order(a.pre, b.pre)
    } else if a.build != b.build {
        build_order(a.build, b.build)
    } else {
        0
    }
}

fn compare_numbers(a: u64, b: u64) -> (res: Order)
    ensures
        res.sign() == (if a < b { -1int } else if a == b { 0 } else { 1 }),
{
    if a < b {
        Order::Less
    } else if a == b {
        Order::Equal
    } else {
        Order::Greater
    }
}

impl Version {
    /// A version without metadata.
    pub fn new(major: u64, minor: u64, patch: u64) -> (res: Version)
        ensures
            res@ == release(major, minor, patch),
            res@.valid(),
    {
        Version { major, minor, patch, pre: String::new(), build: String::new() }
    }

    /// Reads a version.
    ///
    /// There is a version just where the text is what a valid version is written as, and it
    /// is that one.
    pub fn parse(text: &str) -> (res: Result<Version, String>)
        ensures
            match res {
                Ok(v) => {
                    &&& version_of_text(text@) == Some(v@)
                    &&& v@.valid()
                    &&& version_text(v@) == text@
                },
                Err(message) => {
                    &&& version_of_text(text@) is None
                    &&& message@ == parse_error(text@)
                    &&& forall|v: VersionView|
                        #![trigger v.valid()]
                        v.valid() ==> version_text(v) != text@
                },
            },
    {
        let res = semver_parse(text);
        proof {
            if let Ok(v) = &res {
                law_version_of_text(v@);
            }
        }
        res
    }

    /// `major.minor.patch`
    pub fn release_string(&self) -> (res: String)
        ensures
            res@ == release_text(self@),
    {
        proof {
            reveal_strlit(".");
        }
        let mut res = text::decimal_text(self.major as u128);
        res.append(".");
        res.append(text::decimal_text(self.minor as u128).as_str());
        res.append(".");
        res.append(text::decimal_text(self.patch as u128).as_str());
        assert(res@ =~= release_text(self@));
        res
    }

    /// Writes the version.
    pub fn to_text(&self) -> (res: String)
        ensures
            res@ == version_text(self@),
    {
        proof {
            reveal_strlit("-");
            reveal_strlit("+");
        }
        let mut res = self.release_string();
        if !self.pre.as_str().is_empty() {
            res.append("-");
            res.append(self.pre.as_str());
        }
        if !self.build.as_str().is_empty() {
            res.append("+");
            res.append(self.build.as_str());
        }
        assert(res@ =~= version_text(self@));
        res
    }

    /// Compares two versions.
    pub fn compare(&self, other: &Version) -> (res: Order)
        requires
            self@.valid(),
            other@.valid(),
        ensures
            res.sign() == version_order(self@, other@),
            res.sign() == -version_order(other@, self@),
            (res is Equal) == (self@ == other@),
            res.sign() <= 0 ==> forall|v: VersionView|
                v.valid() && #[trigger] version_order(v, self@) <= 0 ==> version_order(v, other@)
                    <= 0,
            res.sign() >= 0 ==> forall|v: VersionView|
                v.valid() && #[trigger] version_order(self@, v) <= 0 ==> version_order(other@, v)
                    <= 0,
            self@.major == other@.major && self@.minor == other@.minor && self@.patch
                == other@.patch ==> {
                &&& self@.pre.len() == 0 && other@.pre.len() > 0 ==> res is Greater
                &&& self@.pre == other@.pre && self@.build.len() == 0 && other@.build.len() > 0
                    ==> res is Less
            },
    {
        let major = compare_numbers(self.major, other.major);
        if major != Order::Equal {
            return major;
        }
        let minor = compare_numbers(self.minor, other.minor);
        if minor != Order::Equal {
            return minor;
        }
        let patch = compare_numbers(self.patch, other.patch);
        if patch != Order::Equal {
            return patch;
        }
        let pre = compare_pre(self.pre.as_str(), other.pre.as_str());
        if pre != Order::Equal {
            return pre;
        }
        let build = compare_build(self.build.as_str(), other.build.as_str());
        if build == Order::Equal {
            assert(self@ =~= other@);
        }
        build
    }

    /// Whether two versions are equal.
    pub fn same(&self, other: &Version) -> (res: bool)
        ensures
            res == (self@ == other@),
    {
        let res = self.major == other.major && self.minor == other.minor && self.patch
            == other.patch && text::equal(self.pre.as_str(), other.pre.as_str()) && text::equal(
            self.build.as_str(),
            other.build.as_str(),
        );
        assert(res ==> self@ =~= other@);
        res
    }
}

/// A value that stands for a version.
pub trait Versioned: View {
    spec fn version_of(value: Self::V) -> VersionView;

    fn version(&self) -> (res: &Version)
        ensures
            res@ == Self::version_of(self@),
    ;
}

impl Versioned for Version {
    open spec fn version_of(value: VersionView) -> VersionView {
        value
    }

    fn version(&self) -> (res: &Version) {
        self
    }
}

/// A compiler version that is available locally or can be downloaded.
#[derive(Debug, PartialEq, Eq)]
pub enum CompilerVersion {
    Installed(Version),
    Remote(Version),
}

/// What a [`CompilerVersion`] holds.
#[verifier::ext_equal]
pub enum CompilerVersionView {
    Installed(VersionView),
    Remote(VersionView),
}

impl View for CompilerVersion {
    type V = CompilerVersionView;

    open spec fn view(&self) -> CompilerVersionView {
        match self {
            CompilerVersion::Installed(v) => CompilerVersionView::Installed(v@),
            CompilerVersion::Remote(v) => CompilerVersionView::Remote(v@),
        }
    }
}

impl Versioned for CompilerVersion {
    open spec fn version_of(value: CompilerVersionView) -> VersionView {
        match value {
            CompilerVersionView::Installed(v) => v,
            CompilerVersionView::Remote(v) => v,
        }
    }

    fn version(&self) -> (res: &Version) {
        match self {
            CompilerVersion::Installed(v) => v,
            CompilerVersion::Remote(v) => v,
        }
    }
}

/// What the elements of a sequence hold.
pub open spec fn views<T: View>(list: Seq<T>) -> Seq<T::V> {
    list.map_values(|item: T| item@)
}

/// Whether no element has a greater version than a later one.
pub open spec fn sorted_by_version<T: Versioned>(list: Seq<T::V>) -> bool {
    forall|i: int, j: int|
        0 <= i < j < list.len() ==> version_order(
            T::version_of(#[trigger] list[i]),
            T::version_of(#[trigger] list[j]),
        ) <= 0
}

/// Whether all elements have a valid version.
pub open spec fn all_valid<T: Versioned>(list: Seq<T::V>) -> bool {
    forall|i: int| 0 <= i < list.len() ==> T::version_of(#[trigger] list[i]).valid()
}

/// Puts an element into a sorted list.
fn insert_by_version<T: Versioned>(list: &mut Vec<T>, item: T)
    requires
        all_valid::<T>(views(old(list)@)),
        sorted_by_version::<T>(views(old(list)@)),
        T::version_of(item@).valid(),
    ensures
        all_valid::<T>(views(final(list)@)),
        sorted_by_version::<T>(views(final(list)@)),
        views(final(list)@).to_multiset() == views(old(list)@).to_multiset().insert(item@),
{
    let ghost before = views(list@);
    let mut at: usize = 0;
    assert(before.len() == list.len());
    while at < list.len()
        invariant
            before == views(list@),
            before.len() == list.len(),
            all_valid::<T>(before),
            T::version_of(item@).valid(),
            sorted_by_version::<T>(before),
            at <= list.len(),
            forall|i: int|
                0 <= i < at ==> version_order(
                    T::version_of(#[trigger] before[i]),
                    T::version_of(item@),
                ) <= 0,
        ensures
            before == views(list@),
            at <= list.len(),
            forall|i: int|
                0 <= i < at ==> version_order(
                    T::version_of(#[trigger] before[i]),
                    T::version_of(item@),
                ) <= 0,
            forall|i: int|
                at <= i < before.len() ==> version_order(
                    T::version_of(item@),
                    T::version_of(#[trigger] before[i]),
                ) <= 0,
        decreases list.len() - at,
    {
        assert(list@[at as int]@ == before[at as int]);
        let order = list[at].version().compare(item.version());
        if order == Order::Greater {
            assert forall|i: int| at <= i < before.len() implies version_order(
                T::version_of(item@),
                T::version_of(#[trigger] before[i]),
            ) <= 0 by {
                if i > at {
                    assert(version_order(T::version_of(before[at as int]), T::version_of(before[i]))
                        <= 0);
                }
            }
            break;
        }
        at = at + 1;
    }
    let ghost value = item@;
    list.insert(at, item);
    proof {
        assert(views(list@) =~= before.insert(at as int, value));
        vstd::seq_lib::to_multiset_insert(before, at as int, value);
        let after = views(list@);
        assert forall|i: int| 0 <= i < after.len() implies T::version_of(
            #[trigger] after[i],
        ).valid() by {
            if i < at {
                assert(after[i] == before[i]);
            } else if i > at {
                assert(after[i] == before[i - 1]);
            }
        }
        assert forall|i: int, j: int| 0 <= i < j < after.len() implies version_order(
            T::version_of(#[trigger] after[i]),
            T::version_of(#[trigger] after[j]),
        ) <= 0 by {
            let a = if i <= at {
                i
            } else {
                i - 1
            };
            let b = if j <= at {
                j
            } else {
                j - 1
            };
            if i != at {
                assert(after[i] == before[a]);
            }
            if j != at {
                assert(after[j] == before[b]);
            }
        }
    }
}

/// Sorts a list by version.
pub fn sort_by_version<T: Versioned>(list: Vec<T>) -> (res: Vec<T>)
    requires
        all_valid::<T>(views(list@)),
    ensures
        sorted_by_version::<T>(views(res@)),
        all_valid::<T>(views(res@)),
        views(res@).to_multiset() == views(list@).to_multiset(),
{
    let ghost all = views(list@);
    let mut list = list;
    let mut res: Vec<T> = Vec::new();
    proof {
        assert(views(res@) =~= Seq::<T::V>::empty());
        assert(views(res@).to_multiset() =~= vstd::multiset::Multiset::empty()) by {
            vstd::seq_lib::to_multiset_len(views(res@));
        }
    }
    while list.len() > 0
        invariant
            all_valid::<T>(views(list@)),
            all_valid::<T>(views(res@)),
            sorted_by_version::<T>(views(res@)),
            views(res@).to_multiset().add(views(list@).to_multiset()) == all.to_multiset(),
        decreases list.len(),
    {
        let ghost before = views(list@);
        let ghost old_res = views(res@);
        if let Some(item) = list.pop() {
            proof {
                let rest = views(list@);
                assert(item@ == before.last());
                assert(T::version_of(before[before.len() - 1]).valid());
                assert(before =~= rest.push(item@));
                vstd::seq_lib::to_multiset_build(rest, item@);
                assert forall|i: int| 0 <= i < rest.len() implies T::version_of(
                    #[trigger] rest[i],
                ).valid() by {
                    assert(rest[i] == before[i]);
                }
            }
            let ghost value = item@;
            insert_by_version(&mut res, item);
            assert(views(res@).to_multiset().add(views(list@).to_multiset())
                =~= old_res.to_multiset().add(before.to_multiset()));
        }
    }
    proof {
        assert(views(list@) =~= Seq::<T::V>::empty());
        assert(views(list@).to_multiset() =~= vstd::multiset::Multiset::empty()) by {
            vstd::seq_lib::to_multiset_len(views(list@));
        }
        assert(views(res@).to_multiset() =~= all.to_multiset());
    }
    res
}

/// Whether the numbers of a version are not greater than those of another one.
pub open spec fn numbers_up_to(a: VersionView, b: VersionView) -> bool {
    if a.major != b.major {
        a.major < b.major
    } else if a.minor != b.minor {
        a.minor < b.minor
    } else {
        a.patch <= b.patch
    }
}

/// In a sorted list the numbers of no version are greater than those of a later one.
pub proof fn law_sorted_numbers<T: Versioned>(list: Seq<T::V>, i: int, j: int)
    requires
        sorted_by_version::<T>(list),
        0 <= i <= j < list.len(),
    ensures
        numbers_up_to(T::version_of(list[i]), T::version_of(list[j])),
{
    if i < j {
        assert(version_order(T::version_of(list[i]), T::version_of(list[j])) <= 0);
    }
}

/// Metadata holds dots and characters of identifiers only.
pub proof fn lemma_metadata_char(s: Seq<char>, i: int)
    requires
        is_build(s),
        0 <= i < s.len(),
    ensures
        s[i] == '.' || is_identifier_char(s[i]),
{
    let dot = Separator::Char('.');
    if s[i] != '.' {
        text::lemma_char_in_pieces(s, dot, i);
        let (k, j) = choose|k: int, j: int|
            0 <= k < text::pieces(s, dot).len() && 0 <= j < text::pieces(s, dot)[k].len()
                && text::pieces(s, dot)[k][j] == s[i];
        assert(is_identifier(text::pieces(s, dot)[k]));
        assert(is_identifier_char(text::pieces(s, dot)[k][j]));
    }
}

/// A release is written with digits and dots.
pub proof fn lemma_release_char(v: VersionView, i: int)
    requires
        0 <= i < release_text(v).len(),
    ensures
        release_text(v)[i] == '.' || text::is_digit(release_text(v)[i]),
{
    let (x, y, z) = (
        text::decimal(v.major as nat),
        text::decimal(v.minor as nat),
        text::decimal(v.patch as nat),
    );
    let release = release_text(v);
    text::lemma_decimal_digits(v.major as nat);
    text::lemma_decimal_digits(v.minor as nat);
    text::lemma_decimal_digits(v.patch as nat);
    assert(release =~= x.push('.') + y.push('.') + z);
    if i < x.len() {
        assert(release[i] == x[i]);
    } else if x.len() < i < x.len() + 1 + y.len() {
        assert(release[i] == y[i - x.len() - 1]);
    } else if i > x.len() + 1 + y.len() {
        assert(release[i] == z[i - x.len() - y.len() - 2]);
    }
}

/// A version is written with dots, plus signs and characters of identifiers.
pub proof fn lemma_version_char(v: VersionView, i: int)
    requires
        v.valid(),
        0 <= i < version_text(v).len(),
    ensures
        ({
            let c = version_text(v)[i];
            c == '.' || c == '+' || is_identifier_char(c)
        }),
{
    let release = release_text(v);
    let whole = version_text(v);
    let n = release.len();
    if i < n {
        lemma_release_char(v, i);
        assert(whole[i] == release[i]);
    } else {
        let k = i - n;
        let meta = metadata_text(v);
        assert(whole[i] == meta[k]);
        let front = if v.pre.len() > 0 {
            v.pre.len() + 1
        } else {
            0
        };
        if k < front {
            if k > 0 {
                assert(meta[k] == v.pre[k - 1]);
                lemma_metadata_char(v.pre, k - 1);
            }
        } else if k > front {
            assert(meta[k] == v.build[k - front - 1]);
            lemma_metadata_char(v.build, k - front - 1);
        }
    }
}

} // verus!
