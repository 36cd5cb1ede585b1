//! Semantic-version precedence used to decide whether a release is newer.
//! Versions are `MAJOR.MINOR.PATCH[-PRERELEASE][+BUILD]`; build metadata is
//! validated but never affects precedence.
use vstd::prelude::*;

use crate::text::{
    chars_of, first_index, is_ascii_alnum, is_digit, lemma_first_index_bounds, split, split_chars,
    views, find_from,
};

verus! {

/// One dot-separated prerelease identifier.
#[derive(Debug, Clone)]
pub enum Ident {
    Numeric(u64),
    Alpha(Vec<char>),
}

/// Spec view of a prerelease identifier.
pub enum IdentView {
    Numeric(nat),
    Alpha(Seq<char>),
}

impl View for Ident {
    type V = IdentView;

    open spec fn view(&self) -> IdentView {
        match self {
            Ident::Numeric(n) => IdentView::Numeric(*n as nat),
            Ident::Alpha(s) => IdentView::Alpha(s@),
        }
    }
}

/// A parsed version.
#[derive(Debug, Clone)]
pub struct Version {
    pub major: u64,
    pub minor: u64,
    pub patch: u64,
    pub pre: Vec<Ident>,
}

/// Spec view of a parsed version.
pub struct VersionView {
    pub major: nat,
    pub minor: nat,
    pub patch: nat,
    pub pre: Seq<IdentView>,
}

pub open spec fn ident_views(v: Seq<Ident>) -> Seq<IdentView> {
    v.map_values(|i: Ident| i@)
}

impl View for Version {
    type V = VersionView;

    open spec fn view(&self) -> VersionView {
        VersionView {
            major: self.major as nat,
            minor: self.minor as nat,
            patch: self.patch as nat,
            pre: ident_views(self.pre@),
        }
    }
}

/// Why a version text was refused.
#[derive(Debug, Clone, Copy, PartialEq, Eq, Structural)]
pub enum VersionError {
    Invalid,
}

/// Decimal value of a digit sequence.
pub open spec fn digits_value(s: Seq<char>) -> nat
    decreases s.len(),
{
    if s.len() == 0 {
        0
    } else {
        digits_value(s.drop_last()) * 10 + ((s.last() as u32) - ('0' as u32)) as nat
    }
}

pub open spec fn all_digits(s: Seq<char>) -> bool {
    forall|i: int| 0 <= i < s.len() ==> is_digit(#[trigger] s[i])
}

/// A numeric identifier: digits without a leading zero that fit in 64 bits.
pub open spec fn numeric_ok(s: Seq<char>) -> bool {
    &&& s.len() >= 1
    &&& all_digits(s)
    &&& (s.len() == 1 || s[0] != '0')
    &&& digits_value(s) <= u64::MAX
}

/// Identifier characters: nonempty ASCII letters, digits and hyphens.
pub open spec fn ident_chars_ok(s: Seq<char>) -> bool {
    &&& s.len() >= 1
    &&& forall|i: int| 0 <= i < s.len() ==> is_ascii_alnum(#[trigger] s[i]) || s[i] == '-'
}

pub open spec fn parse_ident(s: Seq<char>) -> Option<IdentView> {
    if !ident_chars_ok(s) {
        None
    } else if all_digits(s) {
        if numeric_ok(s) {
            Some(IdentView::Numeric(digits_value(s)))
        } else {
            None
        }
    } else {
        Some(IdentView::Alpha(s))
    }
}

pub open spec fn parse_idents(pieces: Seq<Seq<char>>) -> Option<Seq<IdentView>>
    decreases pieces.len(),
{
    if pieces.len() == 0 {
        Some(Seq::empty())
    } else {
        match (parse_idents(pieces.drop_last()), parse_ident(pieces.last())) {
            (Some(a), Some(b)) => Some(a.push(b)),
            _ => None,
        }
    }
}

pub open spec fn build_ok(pieces: Seq<Seq<char>>) -> bool {
    forall|i: int| 0 <= i < pieces.len() ==> ident_chars_ok(#[trigger] pieces[i])
}

/// The version named by a text, if it is a valid semantic version.
pub open spec fn parse_version(s: Seq<char>) -> Option<VersionView> {
    let plus = first_index(s, '+');
    let main = s.take(plus);
    let dash = first_index(main, '-');
    let core = split(main.take(dash), '.');
    let pre = if dash < main.len() {
        parse_idents(split(main.skip(dash + 1), '.'))
    } else {
        Some(Seq::<IdentView>::empty())
    };
    if (plus < s.len() && !build_ok(split(s.skip(plus + 1), '.'))) || core.len() != 3
        || !numeric_ok(core[0]) || !numeric_ok(core[1]) || !numeric_ok(core[2]) || pre is None {
        None
    } else {
        Some(
            VersionView {
                major: digits_value(core[0]),
                minor: digits_value(core[1]),
                patch: digits_value(core[2]),
                pre: pre.unwrap(),
            },
        )
    }
}

/// Three-way comparison of naturals.
pub open spec fn order_nat(a: nat, b: nat) -> int {
    if a < b {
        -1
    } else if a > b {
        1
    } else {
        0
    }
}

/// Lexicographic comparison of character codes.
pub open spec fn order_chars(a: Seq<char>, b: Seq<char>) -> int
    decreases a.len(),
{
    if a.len() == 0 && b.len() == 0 {
        0
    } else if a.len() == 0 {
        -1
    } else if b.len() == 0 {
        1
    } else if a[0] < b[0] {
        -1
    } else if a[0] > b[0] {
        1
    } else {
        order_chars(a.drop_first(), b.drop_first())
    }
}

/// Numeric identifiers precede alphanumeric ones.
pub open spec fn order_ident(a: IdentView, b: IdentView) -> int {
    match (a, b) {
        (IdentView::Numeric(x), IdentView::Numeric(y)) => order_nat(x, y),
        (IdentView::Numeric(_), IdentView::Alpha(_)) => -1,
        (IdentView::Alpha(_), IdentView::Numeric(_)) => 1,
        (IdentView::Alpha(x), IdentView::Alpha(y)) => order_chars(x, y),
    }
}

/// Identifier lists compare element-wise; a proper prefix is smaller.
pub open spec fn order_ident_list(a: Seq<IdentView>, b: Seq<IdentView>) -> int
    decreases a.len(),
{
    if a.len() == 0 && b.len() == 0 {
        0
    } else if a.len() == 0 {
        -1
    } else if b.len() == 0 {
        1
    } else if order_ident(a[0], b[0]) != 0 {
        order_ident(a[0], b[0])
    } else {
        order_ident_list(a.drop_first(), b.drop_first())
    }
}

/// A release (no prerelease) has higher precedence than any of its prereleases.
pub open spec fn order_pre(a: Seq<IdentView>, b: Seq<IdentView>) -> int {
    if a.len() == 0 && b.len() == 0 {
        0
    } else if a.len() == 0 {
        1
    } else if b.len() == 0 {
        -1
    } else {
        order_ident_list(a, b)
    }
}

/// Semantic-version precedence.
pub open spec fn precedence(a: VersionView, b: VersionView) -> int {
    if order_nat(a.major, b.major) != 0 {
        order_nat(a.major, b.major)
    } else if order_nat(a.minor, b.minor) != 0 {
        order_nat(a.minor, b.minor)
    } else if order_nat(a.patch, b.patch) != 0 {
        order_nat(a.patch, b.patch)
    } else {
        order_pre(a.pre, b.pre)
    }
}

/// The result of comparing two version texts.
pub open spec fn spec_newer_version(candidate: Seq<char>, current: Seq<char>) -> Result<bool, VersionError> {
    match (parse_version(candidate), parse_version(current)) {
        (Some(a), Some(b)) => Ok(precedence(a, b) > 0),
        _ => Err(VersionError::Invalid),
    }
}

proof fn lemma_digits_value_prefix(s: Seq<char>, k: int)
    requires
        0 <= k <= s.len(),
    ensures
        digits_value(s.take(k)) <= digits_value(s),
    decreases s.len() - k,
{
    if k < s.len() {
        lemma_digits_value_prefix(s, k + 1);
        assert(s.take(k + 1).drop_last() =~= s.take(k));
    } else {
        assert(s.take(k) =~= s);
    }
}

/// Parses a numeric identifier.
pub fn parse_numeric(s: &[char]) -> (r: Option<u64>)
    ensures
        r is Some <==> numeric_ok(s@),
        r matches Some(v) ==> v == digits_value(s@),
{
    let n = s.len();
    if n == 0 {
        return None;
    }
    if n > 1 && s[0] == '0' {
        return None;
    }
    let mut value: u64 = 0;
    let mut i: usize = 0;
    while i < n
        invariant
            i <= n,
            n == s@.len(),
            value == digits_value(s@.take(i as int)),
            forall|j: int| 0 <= j < i ==> is_digit(#[trigger] s@[j]),
        decreases n - i,
    {
        let c = s[i];
        if !('0' <= c && c <= '9') {
            assert(!is_digit(s@[i as int]));
            return None;
        }
        let d: u64 = (c as u32 - '0' as u32) as u64;
        proof {
            assert(s@.take(i as int + 1).drop_last() =~= s@.take(i as int));
        }
        if value > (u64::MAX - d) / 10 {
            proof {
                assert(digits_value(s@.take(i as int + 1)) == value * 10 + d);
                assert(value * 10 + d > u64::MAX) by (nonlinear_arith)
                    requires
                        value > (u64::MAX - d) / 10,
                        d <= 9,
                ;
                lemma_digits_value_prefix(s@, i as int + 1);
            }
            return None;
        }
        proof {
            assert(value * 10 + d <= u64::MAX) by (nonlinear_arith)
                requires
                    value <= (u64::MAX - d) / 10,
                    d <= 9,
            ;
        }
        value = value * 10 + d;
        i = i + 1;
    }
    proof {
        assert(s@.take(n as int) =~= s@);
    }
    Some(value)
}

fn is_all_digits(s: &[char]) -> (b: bool)
    ensures
        b == all_digits(s@),
{
    let mut i: usize = 0;
    while i < s.len()
        invariant
            i <= s@.len(),
            forall|j: int| 0 <= j < i ==> is_digit(#[trigger] s@[j]),
        decreases s@.len() - i,
    {
        let c = s[i];
        if !('0' <= c && c <= '9') {
            assert(!is_digit(s@[i as int]));
            return false;
        }
        i = i + 1;
    }
    true
}

fn is_ident_chars(s: &[char]) -> (b: bool)
    ensures
        b == ident_chars_ok(s@),
{
    if s.len() == 0 {
        return false;
    }
    let mut i: usize = 0;
    while i < s.len()
        invariant
            i <= s@.len(),
            forall|j: int| 0 <= j < i ==> is_ascii_alnum(#[trigger] s@[j]) || s@[j] == '-',
        decreases s@.len() - i,
    {
        let c = s[i];
        if !(('0' <= c && c <= '9') || ('a' <= c && c <= 'z') || ('A' <= c && c <= 'Z') || c == '-') {
            assert(!(is_ascii_alnum(s@[i as int]) || s@[i as int] == '-'));
            return false;
        }
        i = i + 1;
    }
    true
}

fn parse_one_ident(s: &[char]) -> (r: Option<Ident>)
    ensures
        match r {
            Some(i) => parse_ident(s@) == Some(i@),
            None => parse_ident(s@) is None,
        },
{
    if !is_ident_chars(s) {
        return None;
    }
    if is_all_digits(s) {
        match parse_numeric(s) {
            Some(v) => Some(Ident::Numeric(v)),
            None => None,
        }
    } else {
        let mut v: Vec<char> = Vec::new();
        let mut i: usize = 0;
        while i < s.len()
            invariant
                i <= s@.len(),
                v@ == s@.take(i as int),
            decreases s@.len() - i,
        {
            v.push(s[i]);
            i = i + 1;
            proof {
                assert(v@ =~= s@.take(i as int));
            }
        }
        proof {
            assert(s@.take(s@.len() as int) =~= s@);
        }
        Some(Ident::Alpha(v))
    }
}

fn parse_ident_list(pieces: &Vec<Vec<char>>) -> (r: Option<Vec<Ident>>)
    ensures
        match r {
            Some(v) => parse_idents(views(pieces@)) == Some(ident_views(v@)),
            None => parse_idents(views(pieces@)) is None,
        },
{
    let mut out: Vec<Ident> = Vec::new();
    let mut i: usize = 0;
    proof {
        assert(views(pieces@).take(0) =~= Seq::<Seq<char>>::empty());
        assert(ident_views(out@) =~= Seq::<IdentView>::empty());
    }
    while i < pieces.len()
        invariant
            i <= pieces@.len(),
            parse_idents(views(pieces@).take(i as int)) == Some(ident_views(out@)),
        decreases pieces@.len() - i,
    {
        let ghost prefix = views(pieces@).take(i as int + 1);
        proof {
            assert(prefix.drop_last() =~= views(pieces@).take(i as int));
            assert(prefix.last() == pieces@[i as int]@);
        }
        match parse_one_ident(pieces[i].as_slice()) {
            Some(id) => {
                let ghost old_out = out@;
                out.push(id);
                proof {
                    assert(ident_views(out@) =~= ident_views(old_out).push(id@));
                }
            },
            None => {
                proof {
                    assert(parse_idents(prefix) is None);
                    lemma_parse_idents_prefix_none(views(pieces@), i as int + 1);
                    assert(views(pieces@).take(pieces@.len() as int) =~= views(pieces@));
                }
                return None;
            },
        }
        i = i + 1;
    }
    proof {
        assert(views(pieces@).take(pieces@.len() as int) =~= views(pieces@));
    }
    Some(out)
}

proof fn lemma_parse_idents_prefix_none(p: Seq<Seq<char>>, k: int)
    requires
        0 <= k <= p.len(),
        parse_idents(p.take(k)) is None,
    ensures
        parse_idents(p) is None,
    decreases p.len() - k,
{
    if k < p.len() {
        assert(p.take(k + 1).drop_last() =~= p.take(k));
        lemma_parse_idents_prefix_none(p, k + 1);
    } else {
        assert(p.take(k) =~= p);
    }
}

fn all_build_idents(pieces: &Vec<Vec<char>>) -> (b: bool)
    ensures
        b == build_ok(views(pieces@)),
{
    let mut i: usize = 0;
    while i < pieces.len()
        invariant
            i <= pieces@.len(),
            forall|j: int| 0 <= j < i ==> ident_chars_ok(#[trigger] views(pieces@)[j]),
        decreases pieces@.len() - i,
    {
        if !is_ident_chars(pieces[i].as_slice()) {
            assert(!ident_chars_ok(views(pieces@)[i as int]));
            return false;
        }
        i = i + 1;
    }
    true
}

/// Parses a semantic version.
pub fn parse(text: &str) -> (r: Option<Version>)
    ensures
        match r {
            Some(v) => parse_version(text@) == Some(v@),
            None => parse_version(text@) is None,
        },
{
    let s = chars_of(text);
    let n = s.len();
    let plus = find_from(s.as_slice(), 0, '+');
    proof {
        assert(s@.skip(0) =~= s@);
    }
    if plus < n {
        let build = split_chars(&s.as_slice()[plus + 1..n], '.');
        proof {
            assert(s@.subrange(plus + 1, n as int) =~= s@.skip(plus + 1));
        }
        if !all_build_idents(&build) {
            return None;
        }
    }
    let main = &s.as_slice()[0..plus];
    proof {
        assert(main@ =~= s@.take(plus as int));
    }
    let dash = find_from(main, 0, '-');
    proof {
        assert(main@.skip(0) =~= main@);
    }
    let core = split_chars(&main[0..dash], '.');
    proof {
        assert(main@.subrange(0, dash as int) =~= main@.take(dash as int));
    }
    if core.len() != 3 {
        return None;
    }
    proof {
        assert(views(core@)[0] == core@[0]@);
        assert(views(core@)[1] == core@[1]@);
        assert(views(core@)[2] == core@[2]@);
    }
    let major = match parse_numeric(core[0].as_slice()) {
        Some(v) => v,
        None => return None,
    };
    let minor = match parse_numeric(core[1].as_slice()) {
        Some(v) => v,
        None => return None,
    };
    let patch = match parse_numeric(core[2].as_slice()) {
        Some(v) => v,
        None => return None,
    };
    let pre = if dash < main.len() {
        let pieces = split_chars(&main[dash + 1..plus], '.');
        proof {
            assert(main@.subrange(dash + 1, plus as int) =~= main@.skip(dash + 1));
        }
        match parse_ident_list(&pieces) {
            Some(v) => v,
            None => return None,
        }
    } else {
        let v: Vec<Ident> = Vec::new();
        proof {
            assert(ident_views(v@) =~= Seq::<IdentView>::empty());
        }
        v
    };
    Some(Version { major, minor, patch, pre })
}

fn order_u64(a: u64, b: u64) -> (r: i8)
    ensures
        r as int == order_nat(a as nat, b as nat),
{
    if a < b {
        -1
    } else if a > b {
        1
    } else {
        0
    }
}

pub fn order_char_slices(a: &[char], b: &[char]) -> (r: i8)
    ensures
        r as int == order_chars(a@, b@),
{
    let mut i: usize = 0;
    proof {
        assert(a@.skip(0) =~= a@);
        assert(b@.skip(0) =~= b@);
    }
    while i < a.len() && i < b.len()
        invariant
            i <= a@.len(),
            i <= b@.len(),
            forall|j: int| 0 <= j < i ==> a@[j] == b@[j],
            order_chars(a@, b@) == order_chars(a@.skip(i as int), b@.skip(i as int)),
        decreases a@.len() - i,
    {
        let x = a[i];
        let y = b[i];
        proof {
            assert(a@.skip(i as int)[0] == x);
            assert(b@.skip(i as int)[0] == y);
            assert(a@.skip(i as int).drop_first() =~= a@.skip(i as int + 1));
            assert(b@.skip(i as int).drop_first() =~= b@.skip(i as int + 1));
        }
        if x < y {
            return -1;
        }
        if x > y {
            return 1;
        }
        i = i + 1;
    }
    if i == a.len() && i == b.len() {
        0
    } else if i == a.len() {
        -1
    } else {
        1
    }
}

fn order_idents(a: &Ident, b: &Ident) -> (r: i8)
    ensures
        r as int == order_ident(a@, b@),
{
    match (a, b) {
        (Ident::Numeric(x), Ident::Numeric(y)) => order_u64(*x, *y),
        (Ident::Numeric(_), Ident::Alpha(_)) => -1,
        (Ident::Alpha(_), Ident::Numeric(_)) => 1,
        (Ident::Alpha(x), Ident::Alpha(y)) => order_char_slices(x.as_slice(), y.as_slice()),
    }
}

fn order_lists(a: &Vec<Ident>, b: &Vec<Ident>) -> (r: i8)
    ensures
        r as int == order_ident_list(ident_views(a@), ident_views(b@)),
{
    let ghost av = ident_views(a@);
    let ghost bv = ident_views(b@);
    let mut i: usize = 0;
    proof {
        assert(av.skip(0) =~= av);
        assert(bv.skip(0) =~= bv);
    }
    while i < a.len() && i < b.len()
        invariant
            i <= a@.len(),
            i <= b@.len(),
            av == ident_views(a@),
            bv == ident_views(b@),
            order_ident_list(av, bv) == order_ident_list(av.skip(i as int), bv.skip(i as int)),
        decreases a@.len() - i,
    {
        let c = order_idents(&a[i], &b[i]);
        proof {
            assert(av.skip(i as int)[0] == a@[i as int]@);
            assert(bv.skip(i as int)[0] == b@[i as int]@);
            assert(av.skip(i as int).drop_first() =~= av.skip(i as int + 1));
            assert(bv.skip(i as int).drop_first() =~= bv.skip(i as int + 1));
        }
        if c != 0 {
            return c;
        }
        i = i + 1;
    }
    if i == a.len() && i == b.len() {
        0
    } else if i == a.len() {
        -1
    } else {
        1
    }
}

/// Three-way precedence comparison of two parsed versions.
pub fn compare(a: &Version, b: &Version) -> (r: i8)
    ensures
        r as int == precedence(a@, b@),
{
    let c = order_u64(a.major, b.major);
    if c != 0 {
        return c;
    }
    let c = order_u64(a.minor, b.minor);
    if c != 0 {
        return c;
    }
    let c = order_u64(a.patch, b.patch);
    if c != 0 {
        return c;
    }
    if a.pre.len() == 0 && b.pre.len() == 0 {
        0
    } else if a.pre.len() == 0 {
        1
    } else if b.pre.len() == 0 {
        -1
    } else {
        order_lists(&a.pre, &b.pre)
    }
}

/// Whether `candidate` has strictly higher precedence than `current`;
/// an error when either text is not a semantic version.
pub fn newer_version(candidate: &str, current: &str) -> (r: Result<bool, VersionError>)
    ensures
        r == spec_newer_version(candidate@, current@),
{
    match (parse(candidate), parse(current)) {
        (Some(a), Some(b)) => Ok(compare(&a, &b) > 0),
        _ => Err(VersionError::Invalid),
    }
}

} // verus!

verus! {

proof fn lemma_cons_eq<T>(a: Seq<T>, b: Seq<T>)
    requires
        a.len() > 0,
        b.len() > 0,
        a[0] == b[0],
        a.drop_first() =~= b.drop_first(),
    ensures
        a =~= b,
{
    assert(a.drop_first().len() == b.drop_first().len());
    assert(a.len() == b.len());
    assert forall|i: int| 0 <= i < a.len() implies a[i] == b[i] by {
        if i > 0 {
            assert(a[i] == a.drop_first()[i - 1]);
            assert(b[i] == b.drop_first()[i - 1]);
        }
    }
}

pub proof fn lemma_order_chars(a: Seq<char>, b: Seq<char>, c: Seq<char>)
    ensures
        order_chars(a, b) == -order_chars(b, a),
        -1 <= order_chars(a, b) <= 1,
        order_chars(a, b) == 0 <==> a =~= b,
        order_chars(a, b) <= 0 && order_chars(b, c) <= 0 ==> order_chars(a, c) <= 0,
    decreases a.len(),
{
    if a.len() > 0 && b.len() > 0 && c.len() > 0 {
        lemma_order_chars(a.drop_first(), b.drop_first(), c.drop_first());
        if a[0] == b[0] && a.drop_first() =~= b.drop_first() {
            lemma_cons_eq(a, b);
        }
        if a =~= b {
            assert(a.drop_first() =~= b.drop_first());
        }
    } else if a.len() > 0 && b.len() > 0 {
        lemma_order_chars(a.drop_first(), b.drop_first(), c);
        if a[0] == b[0] && a.drop_first() =~= b.drop_first() {
            lemma_cons_eq(a, b);
        }
        if a =~= b {
            assert(a.drop_first() =~= b.drop_first());
        }
    }
}

proof fn lemma_order_ident(a: IdentView, b: IdentView, c: IdentView)
    ensures
        order_ident(a, b) == -order_ident(b, a),
        -1 <= order_ident(a, b) <= 1,
        order_ident(a, b) == 0 <==> a == b,
        order_ident(a, b) <= 0 && order_ident(b, c) <= 0 ==> order_ident(a, c) <= 0,
{
    match (a, b, c) {
        (IdentView::Alpha(x), IdentView::Alpha(y), IdentView::Alpha(z)) => {
            lemma_order_chars(x, y, z);
        },
        (IdentView::Alpha(x), IdentView::Alpha(y), _) => {
            lemma_order_chars(x, y, y);
        },
        _ => {},
    }
}

proof fn lemma_order_ident_list(a: Seq<IdentView>, b: Seq<IdentView>, c: Seq<IdentView>)
    ensures
        order_ident_list(a, b) == -order_ident_list(b, a),
        -1 <= order_ident_list(a, b) <= 1,
        order_ident_list(a, b) == 0 <==> a =~= b,
        order_ident_list(a, b) <= 0 && order_ident_list(b, c) <= 0 ==> order_ident_list(a, c) <= 0,
    decreases a.len(),
{
    if a.len() > 0 && b.len() > 0 {
        let c2 = if c.len() > 0 { c.drop_first() } else { c };
        lemma_order_ident_list(a.drop_first(), b.drop_first(), c2);
        lemma_order_ident(a[0], b[0], if c.len() > 0 { c[0] } else { b[0] });
        if a[0] == b[0] && a.drop_first() =~= b.drop_first() {
            lemma_cons_eq(a, b);
        }
        if a =~= b {
            assert(a.drop_first() =~= b.drop_first());
        }
        if c.len() > 0 {
            lemma_order_ident(a[0], c[0], b[0]);
            lemma_order_ident(b[0], c[0], a[0]);
        }
    }
}

proof fn lemma_precedence(a: VersionView, b: VersionView, c: VersionView)
    ensures
        precedence(a, b) == -precedence(b, a),
        precedence(a, a) == 0,
        precedence(a, b) <= 0 && precedence(b, c) <= 0 ==> precedence(a, c) <= 0,
        precedence(a, b) < 0 && precedence(b, c) <= 0 ==> precedence(a, c) < 0,
{
    lemma_order_ident_list(a.pre, b.pre, c.pre);
    lemma_order_ident_list(a.pre, a.pre, a.pre);
    lemma_order_ident_list(a.pre, c.pre, b.pre);
    lemma_order_ident_list(b.pre, c.pre, a.pre);
    lemma_order_ident_list(c.pre, a.pre, b.pre);
    lemma_order_ident_list(b.pre, a.pre, c.pre);
}

/// Newer-than is a strict order on valid versions: irreflexive, asymmetric
/// and transitive; an invalid text is never compared.
pub proof fn law_newer_version_is_a_strict_order(a: Seq<char>, b: Seq<char>, c: Seq<char>)
    ensures
        parse_version(a) is Some <==> spec_newer_version(a, a) is Ok,
        parse_version(a) is Some ==> spec_newer_version(a, a) == Ok::<bool, VersionError>(false),
        spec_newer_version(a, b) == Ok::<bool, VersionError>(true) ==> spec_newer_version(b, a)
            == Ok::<bool, VersionError>(false),
        spec_newer_version(a, b) == Ok::<bool, VersionError>(true) && spec_newer_version(b, c)
            == Ok::<bool, VersionError>(true) ==> spec_newer_version(a, c) == Ok::<bool, VersionError>(true),
{
    if let (Some(x), Some(y), Some(z)) = (parse_version(a), parse_version(b), parse_version(c)) {
        lemma_precedence(x, y, z);
        lemma_precedence(z, y, x);
        lemma_precedence(y, z, x);
        lemma_precedence(x, z, y);
    }
    if let (Some(x), Some(y)) = (parse_version(a), parse_version(b)) {
        lemma_precedence(x, y, y);
    }
    if let Some(x) = parse_version(a) {
        lemma_precedence(x, x, x);
    }
}

} // verus!

verus! {

/// Precedence is antisymmetric and transitive on parsed versions.
pub proof fn lemma_precedence_public(a: VersionView, b: VersionView, c: VersionView)
    ensures
        precedence(a, b) == -precedence(b, a),
        precedence(a, a) == 0,
        precedence(a, b) <= 0 && precedence(b, c) <= 0 ==> precedence(a, c) <= 0,
        precedence(a, b) < 0 && precedence(b, c) <= 0 ==> precedence(a, c) < 0,
        precedence(a, b) <= 0 && precedence(b, c) < 0 ==> precedence(a, c) < 0,
{
    lemma_precedence(a, b, c);
    lemma_precedence(b, c, a);
    lemma_precedence(a, c, b);
    lemma_precedence(c, b, a);
    lemma_precedence(c, a, b);
    lemma_precedence(b, a, c);
}


/// Precedence compares the major, then the minor, then the patch number, and
/// a release outranks a prerelease of the same numbers; equal versions tie.
pub proof fn law_precedence_compares_major_minor_patch_then_release(a: VersionView, b: VersionView)
    ensures
        a.major > b.major ==> precedence(a, b) == 1,
        a.major == b.major && a.minor > b.minor ==> precedence(a, b) == 1,
        a.major == b.major && a.minor == b.minor && a.patch > b.patch ==> precedence(a, b) == 1,
        a.major == b.major && a.minor == b.minor && a.patch == b.patch && a.pre.len() == 0 && b.pre.len() > 0
            ==> precedence(a, b) == 1,
        a.major == b.major && a.minor == b.minor && a.patch == b.patch && a.pre == b.pre ==> precedence(a, b) == 0,
{
    lemma_precedence(a, a, a);
}

/// Of two valid version texts, the one whose (major, minor, patch) numbers
/// are lexicographically higher is newer, and the other is not.
pub proof fn law_higher_numbers_are_newer(candidate: Seq<char>, current: Seq<char>)
    requires
        parse_version(candidate) is Some,
        parse_version(current) is Some,
    ensures
        ({
            let a = parse_version(candidate).unwrap();
            let b = parse_version(current).unwrap();
            (a.major > b.major || (a.major == b.major && (a.minor > b.minor || (a.minor == b.minor && a.patch > b.patch))))
                ==> spec_newer_version(candidate, current) == Ok::<bool, VersionError>(true)
                && spec_newer_version(current, candidate) == Ok::<bool, VersionError>(false)
        }),
{
    let a = parse_version(candidate).unwrap();
    let b = parse_version(current).unwrap();
    lemma_precedence(a, b, b);
}

} // verus!
