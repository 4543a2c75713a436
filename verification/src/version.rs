//! Semantic version parsing and requirement matching for plugin dependencies.
use vstd::prelude::*;
use crate::text::{
    chars_has_prefix, chars_of, find_char, has_prefix, is_first_index, lemma_first_index_unique,
    push_char, strip_leading, strip_leading_chars, sub_chars, trim, trim_chars,
};

verus! {

/// A digit `'0'..='9'`.
pub open spec fn is_digit(c: char) -> bool {
    48 <= (c as u32) && (c as u32) <= 57
}

/// Value of a decimal digit.
pub open spec fn digit_val(c: char) -> int {
    (c as u32) - 48
}

/// Whether every character of `s` is a decimal digit.
pub open spec fn all_digits(s: Seq<char>) -> bool {
    forall|i: int| 0 <= i < s.len() ==> is_digit(s[i])
}

/// Value of a string of decimal digits.
pub open spec fn digits_value(s: Seq<char>) -> int
    decreases s.len(),
{
    if s.len() == 0 {
        0
    } else {
        digits_value(s.drop_last()) * 10 + digit_val(s.last())
    }
}

/// What `str::parse::<u64>` gives: an optional `+`, then at least one
/// decimal digit, with a value that fits in a `u64`.
pub open spec fn parse_u64_spec(s: Seq<char>) -> Option<u64> {
    let d = if s.len() > 0 && s[0] == '+' {
        s.drop_first()
    } else {
        s
    };
    if d.len() > 0 && all_digits(d) && digits_value(d) <= u64::MAX {
        Some(digits_value(d) as u64)
    } else {
        None
    }
}

/// The parsed value, or 0 when the text does not parse.
pub open spec fn parse_or_zero(s: Seq<char>) -> u64 {
    match parse_u64_spec(s) {
        Some(v) => v,
        None => 0,
    }
}

/// Decimal digit character for a value below ten.
pub open spec fn digit_char(d: nat) -> char {
    (48 + d) as char
}

/// Decimal rendering of a natural number (`u64`'s `Display`).
pub open spec fn dec_str(n: nat) -> Seq<char>
    decreases n,
{
    if n < 10 {
        seq![digit_char(n)]
    } else {
        dec_str(n / 10).push(digit_char(n % 10))
    }
}

/// First position of `'.'`, if any.
pub open spec fn first_dot(s: Seq<char>) -> Option<int> {
    if exists|i: int| is_first_index(s, '.', i) {
        Some(choose|i: int| is_first_index(s, '.', i))
    } else {
        None
    }
}

/// The part before the first `'.'` (all of `s` when there is none).
pub open spec fn split_head(s: Seq<char>) -> Seq<char> {
    match first_dot(s) {
        Some(i) => s.take(i),
        None => s,
    }
}

/// The part after the first `'.'`, if there is one.
pub open spec fn split_tail(s: Seq<char>) -> Option<Seq<char>> {
    match first_dot(s) {
        Some(i) => Some(s.skip(i + 1)),
        None => None,
    }
}

/// Parsed semantic version (major.minor.patch).
#[derive(Clone, Copy, Debug)]
pub struct SemVer {
    pub major: u64,
    pub minor: u64,
    pub patch: u64,
}

/// What `SemVer::parse` gives: leading `v`s are dropped, the text is cut in
/// at most three parts at `'.'`; the first part must parse, the others count
/// as 0 when missing or unparsable.
pub open spec fn semver_parse(s: Seq<char>) -> Option<SemVer> {
    let t = strip_leading(s, 'v');
    match parse_u64_spec(split_head(t)) {
        None => None,
        Some(major) => {
            let minor = match split_tail(t) {
                Some(r) => parse_or_zero(split_head(r)),
                None => 0,
            };
            let patch = match split_tail(t) {
                Some(r) => match split_tail(r) {
                    Some(r2) => parse_or_zero(r2),
                    None => 0,
                },
                None => 0,
            };
            Some(SemVer { major, minor, patch })
        },
    }
}

/// Lexicographic order on (major, minor, patch).
pub open spec fn semver_lt(a: SemVer, b: SemVer) -> bool {
    ||| a.major < b.major
    ||| (a.major == b.major && a.minor < b.minor)
    ||| (a.major == b.major && a.minor == b.minor && a.patch < b.patch)
}

pub open spec fn semver_le(a: SemVer, b: SemVer) -> bool {
    !semver_lt(b, a)
}

/// `"major.minor.patch"` in decimal.
pub open spec fn format_semver(v: SemVer) -> Seq<char> {
    dec_str(v.major as nat) + seq!['.'] + dec_str(v.minor as nat) + seq!['.'] + dec_str(
        v.patch as nat,
    )
}

/// Comparison operator of a version requirement.
#[derive(Clone, Copy, Debug, PartialEq, Eq)]
pub enum ReqOp {
    Exact,
    Ge,
    Le,
    Gt,
    Lt,
    Caret,
    Tilde,
}

/// Operator and version text of a trimmed requirement; a bare version
/// means `>=`.
pub open spec fn split_requirement(req: Seq<char>) -> (ReqOp, Seq<char>) {
    if has_prefix(req, seq!['>', '=']) {
        (ReqOp::Ge, req.skip(2))
    } else if has_prefix(req, seq!['<', '=']) {
        (ReqOp::Le, req.skip(2))
    } else if has_prefix(req, seq!['>']) {
        (ReqOp::Gt, req.skip(1))
    } else if has_prefix(req, seq!['<']) {
        (ReqOp::Lt, req.skip(1))
    } else if has_prefix(req, seq!['=']) {
        (ReqOp::Exact, req.skip(1))
    } else if has_prefix(req, seq!['^']) {
        (ReqOp::Caret, req.skip(1))
    } else if has_prefix(req, seq!['~']) {
        (ReqOp::Tilde, req.skip(1))
    } else {
        (ReqOp::Ge, req)
    }
}

/// Whether `v` stands in relation `op` to `r`.
pub open spec fn op_holds(op: ReqOp, v: SemVer, r: SemVer) -> bool {
    match op {
        ReqOp::Exact => v == r,
        ReqOp::Ge => semver_le(r, v),
        ReqOp::Le => semver_le(v, r),
        ReqOp::Gt => semver_lt(r, v),
        ReqOp::Lt => semver_lt(v, r),
        ReqOp::Caret => v.major == r.major && semver_le(r, v),
        ReqOp::Tilde => v.major == r.major && v.minor == r.minor && semver_le(r, v),
    }
}

/// The requirement operators, component by component: `=` is the same
/// version, `<` is strictly lower in (major, minor, patch) order, `<=` is
/// lower or the same, `>` and `>=` are their mirror images, `^` is at
/// least the version within the same major, and `~` at least the version
/// within the same major and minor. In particular every version meets
/// `<=` and `>=` of itself and neither `<` nor `>` of itself. The order
/// that picks the best release is the same (major, minor, patch) order.
pub proof fn lemma_requirement_operators(v: SemVer, r: SemVer)
    ensures
        op_holds(ReqOp::Exact, v, r) <==> (v.major == r.major && v.minor == r.minor && v.patch == r.patch),
        op_holds(ReqOp::Lt, v, r) <==> (v.major < r.major || (v.major == r.major && (v.minor < r.minor
            || (v.minor == r.minor && v.patch < r.patch)))),
        op_holds(ReqOp::Le, v, r) <==> (v.major < r.major || (v.major == r.major && (v.minor < r.minor
            || (v.minor == r.minor && v.patch <= r.patch)))),
        op_holds(ReqOp::Gt, v, r) <==> (v.major > r.major || (v.major == r.major && (v.minor > r.minor
            || (v.minor == r.minor && v.patch > r.patch)))),
        op_holds(ReqOp::Ge, v, r) <==> (v.major > r.major || (v.major == r.major && (v.minor > r.minor
            || (v.minor == r.minor && v.patch >= r.patch)))),
        op_holds(ReqOp::Le, v, r) <==> (op_holds(ReqOp::Lt, v, r) || op_holds(ReqOp::Exact, v, r)),
        op_holds(ReqOp::Ge, v, r) <==> (op_holds(ReqOp::Gt, v, r) || op_holds(ReqOp::Exact, v, r)),
        op_holds(ReqOp::Caret, v, r) <==> (v.major == r.major && (v.minor > r.minor
            || (v.minor == r.minor && v.patch >= r.patch))),
        op_holds(ReqOp::Tilde, v, r) <==> (v.major == r.major && v.minor == r.minor && v.patch >= r.patch),
        op_holds(ReqOp::Le, v, v) && op_holds(ReqOp::Ge, v, v) && op_holds(ReqOp::Exact, v, v),
        !op_holds(ReqOp::Lt, v, v) && !op_holds(ReqOp::Gt, v, v),
        semver_lt(v, r) <==> (v.major < r.major || (v.major == r.major && (v.minor < r.minor
            || (v.minor == r.minor && v.patch < r.patch)))),
        semver_le(v, r) <==> (semver_lt(v, r) || v == r),
        semver_le(v, v) && !semver_lt(v, v),
{
}

/// The operator of a requirement is read from its first characters:
/// `>=`, `<=`, then `>`, `<`, `=`, `^`, `~`; the rest is the version.
pub proof fn lemma_requirement_prefixes(t: Seq<char>)
    ensures
        split_requirement(seq!['>', '='] + t) == (ReqOp::Ge, t),
        split_requirement(seq!['<', '='] + t) == (ReqOp::Le, t),
        (t.len() == 0 || t[0] != '=') ==> split_requirement(seq!['>'] + t) == (ReqOp::Gt, t),
        (t.len() == 0 || t[0] != '=') ==> split_requirement(seq!['<'] + t) == (ReqOp::Lt, t),
        split_requirement(seq!['='] + t) == (ReqOp::Exact, t),
        split_requirement(seq!['^'] + t) == (ReqOp::Caret, t),
        split_requirement(seq!['~'] + t) == (ReqOp::Tilde, t),
{
    let ge = seq!['>', '='] + t;
    let le = seq!['<', '='] + t;
    let gt = seq!['>'] + t;
    let lt = seq!['<'] + t;
    let eq = seq!['='] + t;
    let ca = seq!['^'] + t;
    let ti = seq!['~'] + t;
    assert(ge.skip(2) =~= t && le.skip(2) =~= t);
    assert(gt.skip(1) =~= t && lt.skip(1) =~= t && eq.skip(1) =~= t && ca.skip(1) =~= t && ti.skip(1) =~= t);
    assert(ge.take(2) =~= seq!['>', '='] && le.take(2) =~= seq!['<', '=']);
    assert(gt.take(1) =~= seq!['>'] && lt.take(1) =~= seq!['<'] && eq.take(1) =~= seq!['=']);
    assert(ca.take(1) =~= seq!['^'] && ti.take(1) =~= seq!['~']);
    let ps = seq![seq!['>', '='], seq!['<', '='], seq!['>'], seq!['<'], seq!['='], seq!['^']];
    let xs = seq![ge, le, gt, lt, eq, ca, ti];
    assert forall|a: int, b: int| 0 <= a < 7 && 0 <= b < 6 && has_prefix(#[trigger] xs[a], #[trigger] ps[b]) implies xs[a][0] == ps[b][0] by {
        lemma_prefix_first(xs[a], ps[b]);
    }
    if t.len() > 0 && t[0] != '=' {
        assert(!has_prefix(gt, ps[0])) by {
            if has_prefix(gt, ps[0]) {
                assert(gt.take(2)[1] == gt[1]);
            }
        }
        assert(!has_prefix(lt, ps[1])) by {
            if has_prefix(lt, ps[1]) {
                assert(lt.take(2)[1] == lt[1]);
            }
        }
    }
    assert(xs[0] == ge && xs[1] == le && xs[2] == gt && xs[3] == lt && xs[4] == eq && xs[5] == ca && xs[6] == ti);
    assert(ps[0] == seq!['>', '='] && ps[1] == seq!['<', '='] && ps[2] == seq!['>'] && ps[3] == seq!['<'] && ps[4] == seq!['='] && ps[5] == seq!['^']);
}

/// A text with a non-empty prefix starts with the prefix's first character.
proof fn lemma_prefix_first(s: Seq<char>, p: Seq<char>)
    ensures
        has_prefix(s, p) && p.len() > 0 ==> s[0] == p[0],
{
    if has_prefix(s, p) && p.len() > 0 {
        assert(s.take(p.len() as int)[0] == s[0]);
    }
}

/// Whether `version` satisfies `requirement`.
pub open spec fn requirement_matches(version: Seq<char>, requirement: Seq<char>) -> bool {
    let req = trim(requirement);
    if req == seq!['*'] {
        true
    } else {
        let (op, rest) = split_requirement(req);
        match (semver_parse(version), semver_parse(rest)) {
            (Some(v), Some(r)) => op_holds(op, v, r),
            _ => false,
        }
    }
}

/// A version text that satisfies the requirement and parses.
pub open spec fn is_candidate(version: Seq<char>, requirement: Seq<char>) -> bool {
    requirement_matches(version, requirement) && semver_parse(version) is Some
}

/// `k` is the first position of `available` holding a highest version
/// that satisfies `requirement`, compared as parsed versions.
pub open spec fn first_best(available: Seq<Seq<char>>, requirement: Seq<char>, k: int) -> bool {
    &&& 0 <= k < available.len()
    &&& is_candidate(available[k], requirement)
    &&& forall|j: int| 0 <= j < available.len() && is_candidate(#[trigger] available[j], requirement)
        ==> semver_le(semver_parse(available[j])->0, semver_parse(available[k])->0)
    &&& forall|j: int| 0 <= j < k && is_candidate(#[trigger] available[j], requirement)
        ==> semver_lt(semver_parse(available[j])->0, semver_parse(available[k])->0)
}

proof fn lemma_digits_value_nonneg(s: Seq<char>)
    requires
        all_digits(s),
    ensures
        digits_value(s) >= 0,
    decreases s.len(),
{
    if s.len() > 0 {
        lemma_digits_value_nonneg(s.drop_last());
    }
}

proof fn lemma_prefix_value_le(s: Seq<char>, k: int)
    requires
        all_digits(s),
        0 <= k <= s.len(),
    ensures
        digits_value(s.take(k)) <= digits_value(s),
    decreases s.len(),
{
    if k == s.len() {
        assert(s.take(k) =~= s);
    } else {
        let d = s.drop_last();
        assert(d.take(k) =~= s.take(k));
        lemma_prefix_value_le(d, k);
        lemma_digits_value_nonneg(d);
    }
}

/// `str::parse::<u64>` on characters.
fn parse_u64_chars(s: &Vec<char>) -> (r: Option<u64>)
    ensures
        r == parse_u64_spec(s@),
{
    let d = if s.len() > 0 && s[0] == '+' {
        sub_chars(s, 1, s.len())
    } else {
        sub_chars(s, 0, s.len())
    };
    let ghost dd = if s@.len() > 0 && s@[0] == '+' {
        s@.drop_first()
    } else {
        s@
    };
    assert(d@ =~= dd);
    if d.len() == 0 {
        return None;
    }
    let mut acc: u64 = 0;
    let mut i: usize = 0;
    assert(d@.take(0) =~= Seq::<char>::empty());
    assert(parse_u64_spec(s@) == (if d@.len() > 0 && all_digits(d@) && digits_value(d@) <= u64::MAX {
        Some(digits_value(d@) as u64)
    } else {
        None
    }));
    while i < d.len()
        invariant
            d@ == dd,
            parse_u64_spec(s@) == (if d@.len() > 0 && all_digits(d@) && digits_value(d@)
                <= u64::MAX {
                Some(digits_value(d@) as u64)
            } else {
                None
            }),
            i <= d@.len(),
            all_digits(d@.take(i as int)),
            acc == digits_value(d@.take(i as int)),
        decreases d.len() - i,
    {
        let c = d[i];
        let u = c as u32;
        if u < 48 || u > 57 {
            assert(!is_digit(d@[i as int]));
            assert(!all_digits(dd));
            return None;
        }
        assert(is_digit(d@[i as int]));
        let dv = (u - 48) as u64;
        let next: u128 = acc as u128 * 10 + dv as u128;
        assert(d@.take(i + 1).drop_last() =~= d@.take(i as int));
        assert forall|j: int| 0 <= j < i + 1 implies is_digit(#[trigger] d@.take(i + 1)[j]) by {
            if j < i {
                assert(d@.take(i + 1)[j] == d@.take(i as int)[j]);
            }
        }
        if next > 0xffff_ffff_ffff_ffffu128 {
            proof {
                if all_digits(d@) {
                    lemma_prefix_value_le(d@, i + 1);
                }
            }
            return None;
        }
        acc = next as u64;
        i = i + 1;
    }
    assert(d@.take(d@.len() as int) =~= d@);
    Some(acc)
}

/// Splits at the first `'.'`.
fn split_dot(t: &Vec<char>) -> (r: (Vec<char>, Option<Vec<char>>))
    ensures
        r.0@ == split_head(t@),
        match r.1 {
            Some(x) => split_tail(t@) == Some(x@),
            None => split_tail(t@) is None,
        },
{
    let n = t.len();
    match find_char(t, '.') {
        Some(i) => {
            proof {
                let k = choose|k: int| is_first_index(t@, '.', k);
                lemma_first_index_unique(t@, '.', i as int, k);
            }
            let h = sub_chars(t, 0, i);
            let rest = sub_chars(t, i + 1, n);
            assert(h@ =~= t@.take(i as int));
            assert(rest@ =~= t@.skip(i + 1));
            (h, Some(rest))
        },
        None => {
            assert(!exists|i: int| is_first_index(t@, '.', i));
            (sub_chars(t, 0, t.len()), None)
        },
    }
}

fn parse_or_zero_chars(s: &Vec<char>) -> (r: u64)
    ensures
        r == parse_or_zero(s@),
{
    match parse_u64_chars(s) {
        Some(v) => v,
        None => 0,
    }
}

impl SemVer {
    /// Parses a version string such as `"1.2.3"`, `"1.2"`, `"1"` or `"v1.2.3"`.
    pub fn parse(s: &str) -> (r: Option<SemVer>)
        ensures
            r == semver_parse(s@),
    {
        let cs = chars_of(s);
        Self::parse_chars(&cs)
    }

    /// `parse` on characters.
    pub fn parse_chars(s: &Vec<char>) -> (r: Option<SemVer>)
        ensures
            r == semver_parse(s@),
    {
        let t = strip_leading_chars(s, 'v');
        let (head, tail) = split_dot(&t);
        let major = match parse_u64_chars(&head) {
            Some(m) => m,
            None => {
                return None;
            },
        };
        let mut minor: u64 = 0;
        let mut patch: u64 = 0;
        match tail {
            Some(r) => {
                let (h2, t2) = split_dot(&r);
                minor = parse_or_zero_chars(&h2);
                match t2 {
                    Some(r2) => {
                        patch = parse_or_zero_chars(&r2);
                    },
                    None => {},
                }
            },
            None => {},
        }
        Some(SemVer { major, minor, patch })
    }

    /// Strict lexicographic comparison.
    pub fn less_than(&self, other: &SemVer) -> (b: bool)
        ensures
            b == semver_lt(*self, *other),
    {
        self.major < other.major || (self.major == other.major && self.minor < other.minor) || (
        self.major == other.major && self.minor == other.minor && self.patch < other.patch)
    }

    /// Equality of all three parts.
    pub fn same_as(&self, other: &SemVer) -> (b: bool)
        ensures
            b == (*self == *other),
    {
        self.major == other.major && self.minor == other.minor && self.patch == other.patch
    }
}

/// Appends the decimal rendering of `n`.
pub fn push_decimal(s: &mut String, n: u64)
    ensures
        final(s)@ == old(s)@ + dec_str(n as nat),
    decreases n,
{
    if n >= 10 {
        push_decimal(s, n / 10);
    }
    let d = (n % 10) as u8;
    let c = (48u8 + d) as char;
    assert(c == digit_char((n % 10) as nat));
    push_char(s, c);
    proof {
        if n < 10 {
            assert(s@ =~= old(s)@ + dec_str(n as nat));
        } else {
            assert(s@ =~= old(s)@ + dec_str(n as nat));
        }
    }
}

/// Decimal rendering of a `u64`.
pub fn u64_to_string(n: u64) -> (s: String)
    ensures
        s@ == dec_str(n as nat),
{
    let mut s = String::new();
    push_decimal(&mut s, n);
    assert(s@ =~= dec_str(n as nat));
    s
}

/// `"major.minor.patch"`.
pub fn format_version(v: &SemVer) -> (s: String)
    ensures
        s@ == format_semver(*v),
{
    let mut s = String::new();
    push_decimal(&mut s, v.major);
    push_char(&mut s, '.');
    push_decimal(&mut s, v.minor);
    push_char(&mut s, '.');
    push_decimal(&mut s, v.patch);
    assert(s@ =~= format_semver(*v));
    s
}

/// Splits a trimmed requirement into operator and version text.
fn split_op(req: &Vec<char>) -> (r: (ReqOp, Vec<char>))
    ensures
        (r.0, r.1@) == split_requirement(req@),
{
    let ge = vec!['>', '='];
    let le = vec!['<', '='];
    let gt = vec!['>'];
    let lt = vec!['<'];
    let eq = vec!['='];
    let ca = vec!['^'];
    let ti = vec!['~'];
    assert(ge@ =~= seq!['>', '=']);
    assert(le@ =~= seq!['<', '=']);
    assert(gt@ =~= seq!['>']);
    assert(lt@ =~= seq!['<']);
    assert(eq@ =~= seq!['=']);
    assert(ca@ =~= seq!['^']);
    assert(ti@ =~= seq!['~']);
    let n = req.len();
    if chars_has_prefix(req, &ge) {
        (ReqOp::Ge, sub_chars(req, 2, n))
    } else if chars_has_prefix(req, &le) {
        (ReqOp::Le, sub_chars(req, 2, n))
    } else if chars_has_prefix(req, &gt) {
        (ReqOp::Gt, sub_chars(req, 1, n))
    } else if chars_has_prefix(req, &lt) {
        (ReqOp::Lt, sub_chars(req, 1, n))
    } else if chars_has_prefix(req, &eq) {
        (ReqOp::Exact, sub_chars(req, 1, n))
    } else if chars_has_prefix(req, &ca) {
        (ReqOp::Caret, sub_chars(req, 1, n))
    } else if chars_has_prefix(req, &ti) {
        (ReqOp::Tilde, sub_chars(req, 1, n))
    } else {
        (ReqOp::Ge, sub_chars(req, 0, n))
    }
}

fn op_holds_exec(op: ReqOp, v: &SemVer, r: &SemVer) -> (b: bool)
    ensures
        b == op_holds(op, *v, *r),
{
    match op {
        ReqOp::Exact => v.same_as(r),
        ReqOp::Ge => !v.less_than(r),
        ReqOp::Le => !r.less_than(v),
        ReqOp::Gt => r.less_than(v),
        ReqOp::Lt => v.less_than(r),
        ReqOp::Caret => v.major == r.major && !v.less_than(r),
        ReqOp::Tilde => v.major == r.major && v.minor == r.minor && !v.less_than(r),
    }
}

/// Semantic version resolution for plugin dependencies.
///
/// Requirement operators: `=`, `>=`, `<=`, `>`, `<`, `^` (same major, at
/// least the given version), `~` (same major and minor, at least the given
/// version), `*` (any version); a bare version means `>=`.
pub struct VersionResolver;

impl VersionResolver {
    /// Whether `version` satisfies `requirement`.
    pub fn matches(version: &str, requirement: &str) -> (b: bool)
        ensures
            b == requirement_matches(version@, requirement@),
    {
        let rc = chars_of(requirement);
        let vc = chars_of(version);
        Self::matches_chars(&vc, &rc)
    }

    /// `matches` on characters.
    pub fn matches_chars(vc: &Vec<char>, rc: &Vec<char>) -> (b: bool)
        ensures
            b == requirement_matches(vc@, rc@),
    {
        let req = trim_chars(rc);
        if req.len() == 1 && req[0] == '*' {
            assert(req@ =~= seq!['*']);
            return true;
        }
        assert(req@ != seq!['*']) by {
            if req@.len() == 1 {
                assert(req@[0] != seq!['*'][0]);
            }
        }
        let (op, rest) = split_op(&req);
        let v = SemVer::parse_chars(vc);
        let r = SemVer::parse_chars(&rest);
        match (v, r) {
            (Some(v), Some(r)) => op_holds_exec(op, &v, &r),
            _ => false,
        }
    }

    /// Position of the first of the highest versions in `available` that
    /// satisfy `requirement` (compared as parsed versions), or `None` if
    /// none qualifies.
    pub fn best_candidate(available: &[&str], requirement: &str) -> (r: Option<usize>)
        ensures
            match r {
                None => forall|i: int|
                    0 <= i < available@.len() ==> !is_candidate(#[trigger] available@[i]@, requirement@),
                Some(i) => first_best(available@.map_values(|a: &str| a@), requirement@, i as int),
            },
    {
        let ghost names = available@.map_values(|a: &str| a@);
        let rc = chars_of(requirement);
        let mut best: Option<(usize, SemVer)> = None;
        let mut i: usize = 0;
        while i < available.len()
            invariant
                i <= available@.len(),
                rc@ == requirement@,
                names == available@.map_values(|a: &str| a@),
                match best {
                    None => forall|j: int|
                        0 <= j < i ==> !is_candidate(#[trigger] available@[j]@, requirement@),
                    Some((bi, b)) => bi < i && is_candidate(available@[bi as int]@, requirement@)
                        && semver_parse(available@[bi as int]@) == Some(b) && (forall|j: int|
                        0 <= j < i && is_candidate(#[trigger] available@[j]@, requirement@)
                            ==> semver_le(semver_parse(available@[j]@)->0, b)) && (forall|j: int|
                        0 <= j < bi && is_candidate(#[trigger] available@[j]@, requirement@)
                            ==> semver_lt(semver_parse(available@[j]@)->0, b)),
                },
            decreases available.len() - i,
        {
            let s: &str = available[i];
            let vc = chars_of(s);
            if Self::matches_chars(&vc, &rc) {
                match SemVer::parse_chars(&vc) {
                    Some(v) => {
                        let replace = match &best {
                            None => true,
                            Some((_, b)) => b.less_than(&v),
                        };
                        if replace {
                            best = Some((i, v));
                        }
                    },
                    None => {},
                }
            }
            i = i + 1;
        }
        match best {
            None => None,
            Some((bi, b)) => {
                proof {
                    assert forall|j: int| 0 <= j < names.len() && is_candidate(#[trigger] names[j], requirement@)
                        implies semver_le(semver_parse(names[j])->0, semver_parse(names[bi as int])->0) by {
                        assert(names[j] == available@[j]@);
                    }
                    assert forall|j: int| 0 <= j < bi && is_candidate(#[trigger] names[j], requirement@)
                        implies semver_lt(semver_parse(names[j])->0, semver_parse(names[bi as int])->0) by {
                        assert(names[j] == available@[j]@);
                    }
                    assert(names[bi as int] == available@[bi as int]@);
                }
                Some(bi)
            },
        }
    }

    /// The highest version in `available` that satisfies `requirement`,
    /// rendered as `"major.minor.patch"`, or `None` if none qualifies.
    pub fn resolve_best(available: &[&str], requirement: &str) -> (r: Option<String>)
        ensures
            match r {
                None => forall|i: int|
                    0 <= i < available@.len() ==> !is_candidate(
                        #[trigger] available@[i]@,
                        requirement@,
                    ),
                Some(s) => exists|i: int|
                    0 <= i < available@.len() && is_candidate(#[trigger] available@[i]@, requirement@)
                        && s@ == format_semver(semver_parse(available@[i]@)->0) && forall|j: int|
                        0 <= j < available@.len() && is_candidate(#[trigger] available@[j]@, requirement@)
                            ==> semver_le(
                            semver_parse(available@[j]@)->0,
                            semver_parse(available@[i]@)->0,
                        ),
            },
    {
        match Self::best_candidate(available, requirement) {
            None => None,
            Some(i) => {
                let ghost names = available@.map_values(|a: &str| a@);
                assert(names[i as int] == available@[i as int]@);
                match SemVer::parse(available[i]) {
                    Some(v) => {
                        let s = format_version(&v);
                        proof {
                            assert forall|j: int| 0 <= j < available@.len() && is_candidate(#[trigger] available@[j]@, requirement@)
                                implies semver_le(semver_parse(available@[j]@)->0, semver_parse(available@[i as int]@)->0) by {
                                assert(names[j] == available@[j]@);
                            }
                        }
                        Some(s)
                    },
                    None => None,
                }
            },
        }
    }

    /// Whether the server version satisfies a plugin's server requirement.
    pub fn is_compatible(server_version: &str, plugin_requirement: &str) -> (b: bool)
        ensures
            b == requirement_matches(server_version@, plugin_requirement@),
    {
        Self::matches(server_version, plugin_requirement)
    }
}

} // verus!
