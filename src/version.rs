//! The version-constraint language: a semantic-version requirement
//! (`>=1.2, <2`, `^1.2.3`, `~1.2.3`, `=1.0.0`, ...) or a bracketed range
//! (`[1.0,2.0)`, `(1.0.0,]`), evaluated against a semantic version.

use crate::text::{comma_pieces, join_texts, joined, split_at_commas, split_text, trim_text, trimmed};
use std::cmp::Ordering;
use vstd::prelude::*;
use vstd::string::*;

verus! {

#[verifier::external_type_specification]
#[verifier::external_body]
pub struct ExSemverVersion(semver::Version);

#[verifier::external_type_specification]
#[verifier::external_body]
pub struct ExSemverReq(semver::VersionReq);

/// Whether `s` is a semantic version as `semver::Version::parse` accepts it.
pub uninterp spec fn is_semver(s: Seq<char>) -> bool;

/// The order `semver` gives to the versions spelled `a` and `b`.
pub uninterp spec fn semver_order(a: Seq<char>, b: Seq<char>) -> Ordering;

/// Whether `s` is a version requirement as `semver::VersionReq::parse`
/// accepts it.
pub uninterp spec fn is_semver_req(s: Seq<char>) -> bool;

/// Whether the requirement spelled `req` matches the version spelled `v`, by
/// `semver`'s rules (pre-release versions included).
pub uninterp spec fn semver_req_matches(req: Seq<char>, v: Seq<char>) -> bool;

/// A semantic version, kept together with the text it was read from. Both
/// fields are private and set together, only by `parse_semver`, so `parsed`
/// is always what `semver` reads from `text`.
#[derive(Debug, PartialEq, Eq)]
pub struct SemVer {
    text: String,
    parsed: semver::Version,
}

impl View for SemVer {
    type V = Seq<char>;

    closed spec fn view(&self) -> Seq<char> {
        self.text@
    }
}

/// Relies on `semver::Version::parse`: it accepts exactly the texts that
/// `is_semver` names. The text is kept beside the parsed value.
#[verifier::external_body]
fn parse_semver(s: &str) -> (r: Option<SemVer>)
    ensures
        r is Some <==> is_semver(s@),
        r is Some ==> r->0@ == s@,
{
    match semver::Version::parse(s) {
        Ok(parsed) => Some(SemVer { text: s.to_string(), parsed }),
        Err(_) => None,
    }
}

/// Relies on `Ord for semver::Version`, applied to the versions that `a` and
/// `b` were parsed from; the same text gives equal versions.
#[verifier::external_body]
fn compare_semver(a: &SemVer, b: &SemVer) -> (r: Ordering)
    ensures
        r == semver_order(a@, b@),
        a@ == b@ ==> r == Ordering::Equal,
{
    a.parsed.cmp(&b.parsed)
}

impl SemVer {
    /// Reads a semantic version; `None` where `s` is not one.
    pub fn parse(s: &str) -> (r: Option<SemVer>)
        ensures
            r is Some <==> is_semver(s@),
            r is Some ==> r->0@ == s@,
    {
        parse_semver(s)
    }

    /// The text this version was read from.
    pub fn as_str(&self) -> (r: &str)
        ensures
            r@ == self@,
    {
        self.text.as_str()
    }
}

/// A semantic-version requirement, kept together with its text. Both fields
/// are private and set together, only by `parse_semver_req`, so `parsed` is
/// always what `semver` reads from `text`.
#[derive(Debug, PartialEq, Eq)]
pub struct SemVerReq {
    text: String,
    parsed: semver::VersionReq,
}

impl View for SemVerReq {
    type V = Seq<char>;

    closed spec fn view(&self) -> Seq<char> {
        self.text@
    }
}

/// Relies on `semver::VersionReq::parse`: it accepts exactly the texts that
/// `is_semver_req` names. The text is kept beside the parsed value.
#[verifier::external_body]
fn parse_semver_req(s: &str) -> (r: Option<SemVerReq>)
    ensures
        r is Some <==> is_semver_req(s@),
        r is Some ==> r->0@ == s@,
{
    match semver::VersionReq::parse(s) {
        Ok(parsed) => Some(SemVerReq { text: s.to_string(), parsed }),
        Err(_) => None,
    }
}

/// Relies on `semver::VersionReq::matches`, applied to the values that `req`
/// and `v` were parsed from.
#[verifier::external_body]
fn semver_matches(req: &SemVerReq, v: &SemVer) -> (r: bool)
    ensures
        r == semver_req_matches(req@, v@),
{
    req.parsed.matches(&v.parsed)
}

impl SemVerReq {
    /// Reads a semantic-version requirement; `None` where `s` is not one.
    pub fn parse(s: &str) -> (r: Option<SemVerReq>)
        ensures
            r is Some <==> is_semver_req(s@),
            r is Some ==> r->0@ == s@,
    {
        parse_semver_req(s)
    }

    /// Whether `v` satisfies this requirement.
    pub fn matches(&self, v: &SemVer) -> (r: bool)
        ensures
            r == semver_req_matches(self@, v@),
    {
        semver_matches(self, v)
    }
}

/// One end of a bracketed range.
#[derive(Debug, PartialEq, Eq)]
pub enum VersionBound {
    Inclusive(SemVer),
    Exclusive(SemVer),
    Unbounded,
}

pub enum BoundView {
    Inclusive(Seq<char>),
    Exclusive(Seq<char>),
    Unbounded,
}

impl View for VersionBound {
    type V = BoundView;

    open spec fn view(&self) -> BoundView {
        match self {
            VersionBound::Inclusive(v) => BoundView::Inclusive(v@),
            VersionBound::Exclusive(v) => BoundView::Exclusive(v@),
            VersionBound::Unbounded => BoundView::Unbounded,
        }
    }
}

/// A parsed constraint in one of the two grammars.
#[derive(Debug, PartialEq, Eq)]
pub enum VersionConstraint {
    Bracketed(VersionBound, VersionBound),
    Semver(SemVerReq),
}

pub enum ConstraintView {
    Bracketed(BoundView, BoundView),
    Semver(Seq<char>),
}

impl View for VersionConstraint {
    type V = ConstraintView;

    open spec fn view(&self) -> ConstraintView {
        match self {
            VersionConstraint::Bracketed(lo, hi) => ConstraintView::Bracketed(lo@, hi@),
            VersionConstraint::Semver(req) => ConstraintView::Semver(req@),
        }
    }
}

/// Why a constraint text was rejected.
#[derive(Debug, Clone, Copy, PartialEq, Eq, Structural)]
pub enum ConstraintError {
    /// A bracketed range whose inside does not hold exactly one comma.
    BoundCount,
    /// A bracketed range with a bound that is not a semantic version.
    InvalidBound,
    /// Neither a requirement nor a bracketed range.
    Unrecognized,
}

impl VersionBound {
    /// The version of this bound, where it has one.
    pub fn version(&self) -> (r: Option<&SemVer>)
        ensures
            match r {
                Some(v) => !(self@ is Unbounded) && v@ == bound_version(self@),
                None => self@ is Unbounded,
            },
    {
        match self {
            VersionBound::Inclusive(v) => Some(v),
            VersionBound::Exclusive(v) => Some(v),
            VersionBound::Unbounded => None,
        }
    }

    /// Whether a version that compares as `ord` with this bound's version is
    /// admitted with this bound as the lower end of a range.
    pub fn admits_as_lower(&self, ord: Ordering) -> (r: bool)
        ensures
            r == lower_admits(self@, ord),
    {
        match self {
            VersionBound::Inclusive(_) => !matches!(ord, Ordering::Less),
            VersionBound::Exclusive(_) => matches!(ord, Ordering::Greater),
            VersionBound::Unbounded => true,
        }
    }

    /// Whether a version that compares as `ord` with this bound's version is
    /// admitted with this bound as the upper end of a range.
    pub fn admits_as_upper(&self, ord: Ordering) -> (r: bool)
        ensures
            r == upper_admits(self@, ord),
    {
        match self {
            VersionBound::Inclusive(_) => !matches!(ord, Ordering::Greater),
            VersionBound::Exclusive(_) => matches!(ord, Ordering::Less),
            VersionBound::Unbounded => true,
        }
    }
}

/// A bound position of a bracketed range: empty (after trimming) means
/// unbounded, otherwise a semantic version.
pub open spec fn bound_of(part: Seq<char>, inclusive: bool) -> Option<BoundView> {
    let b = trimmed(part);
    if b.len() == 0 {
        Some(BoundView::Unbounded)
    } else if is_semver(b) {
        Some(if inclusive { BoundView::Inclusive(b) } else { BoundView::Exclusive(b) })
    } else {
        None
    }
}

/// What lies between the opening and the closing character of `t`.
pub open spec fn bracket_inside(t: Seq<char>) -> Seq<char> {
    t.subrange(1, t.len() - 1)
}

/// Whether `t` is enclosed by an opening `[` or `(` and a closing `]` or `)`.
pub open spec fn is_bracketed(t: Seq<char>) -> bool {
    t.len() >= 2 && (t[0] == '[' || t[0] == '(') && (t.last() == ']' || t.last() == ')')
}

/// The bracketed grammar on the trimmed text `t`, which is enclosed by
/// brackets.
pub open spec fn bracketed_of(t: Seq<char>) -> Result<ConstraintView, ConstraintError> {
    let pieces = comma_pieces(bracket_inside(t));
    if pieces.len() != 2 {
        Err(ConstraintError::BoundCount)
    } else {
        match bound_of(pieces[0], t[0] == '[') {
            None => Err(ConstraintError::InvalidBound),
            Some(lo) => match bound_of(pieces[1], t.last() == ']') {
                None => Err(ConstraintError::InvalidBound),
                Some(hi) => Ok(ConstraintView::Bracketed(lo, hi)),
            },
        }
    }
}

/// `p` without its leading spaces.
pub open spec fn skip_spaces(p: Seq<char>) -> Seq<char>
    decreases p.len(),
{
    if p.len() > 0 && p[0] == ' ' {
        skip_spaces(p.drop_first())
    } else {
        p
    }
}

pub open spec fn is_ascii_digit(c: char) -> bool {
    '0' <= c && c <= '9'
}

/// A requirement term: a bare version (one that starts with a digit) means
/// exactly that version, so it is given the `=` operator; any other term is
/// kept as it is.
pub open spec fn exact_term(p: Seq<char>) -> Seq<char> {
    let q = skip_spaces(p);
    if q.len() > 0 && is_ascii_digit(q[0]) {
        seq!['='] + q
    } else {
        p
    }
}

/// The requirement text with every bare version term made exact.
pub open spec fn exact_terms(t: Seq<char>) -> Seq<char> {
    joined(comma_pieces(t).map_values(|p: Seq<char>| exact_term(p)), ","@)
}

/// The constraint that the text `s` denotes. The trimmed text is first read
/// as a semantic-version requirement, with each bare version term meaning
/// exactly that version; failing that, as a bracketed range; failing both,
/// it is unrecognized.
pub open spec fn constraint_of(s: Seq<char>) -> Result<ConstraintView, ConstraintError> {
    let t = trimmed(s);
    let req = exact_terms(t);
    if is_semver_req(req) {
        Ok(ConstraintView::Semver(req))
    } else if is_bracketed(t) {
        bracketed_of(t)
    } else {
        Err(ConstraintError::Unrecognized)
    }
}

/// Whether a version that compares as `ord` with the version of bound `b`
/// is admitted by `b` as a lower end.
pub open spec fn lower_admits(b: BoundView, ord: Ordering) -> bool {
    match b {
        BoundView::Inclusive(_) => ord != Ordering::Less,
        BoundView::Exclusive(_) => ord == Ordering::Greater,
        BoundView::Unbounded => true,
    }
}

/// Whether a version that compares as `ord` with the version of bound `b`
/// is admitted by `b` as an upper end.
pub open spec fn upper_admits(b: BoundView, ord: Ordering) -> bool {
    match b {
        BoundView::Inclusive(_) => ord != Ordering::Greater,
        BoundView::Exclusive(_) => ord == Ordering::Less,
        BoundView::Unbounded => true,
    }
}

/// The version of a bound, where it has one.
pub open spec fn bound_version(b: BoundView) -> Seq<char> {
    match b {
        BoundView::Inclusive(x) => x,
        BoundView::Exclusive(x) => x,
        BoundView::Unbounded => Seq::<char>::empty(),
    }
}

/// Whether the version spelled `v` lies on the admitted side of a lower bound.
pub open spec fn above_lower(b: BoundView, v: Seq<char>) -> bool {
    lower_admits(b, semver_order(v, bound_version(b)))
}

/// Whether the version spelled `v` lies on the admitted side of an upper bound.
pub open spec fn below_upper(b: BoundView, v: Seq<char>) -> bool {
    upper_admits(b, semver_order(v, bound_version(b)))
}

/// Whether the constraint `c` admits the version spelled `v`.
pub open spec fn constraint_admits(c: ConstraintView, v: Seq<char>) -> bool {
    match c {
        ConstraintView::Bracketed(lo, hi) => above_lower(lo, v) && below_upper(hi, v),
        ConstraintView::Semver(req) => semver_req_matches(req, v),
    }
}

/// `p` with a bare version term made exact.
fn exact_term_of(p: &str) -> (r: String)
    ensures
        r@ == exact_term(p@),
{
    let n = p.unicode_len();
    let mut i: usize = 0;
    proof {
        assert(p@.subrange(0, n as int) =~= p@);
    }
    while i < n && p.get_char(i) == ' '
        invariant
            n == p@.len(),
            i <= n,
            skip_spaces(p@) == skip_spaces(p@.subrange(i as int, n as int)),
        decreases n - i,
    {
        proof {
            assert(p@.subrange(i as int, n as int).drop_first() =~= p@.subrange(i + 1, n as int));
        }
        i = i + 1;
    }
    proof {
        if i < n {
            assert(p@.subrange(i as int, n as int)[0] == p@[i as int]);
        } else {
            assert(p@.subrange(i as int, n as int) =~= Seq::<char>::empty());
        }
    }
    if i < n {
        let c = p.get_char(i);
        if '0' <= c && c <= '9' {
            let mut r = String::from_str("=");
            r.append(p.substring_char(i, n));
            proof {
                reveal_strlit("=");
                assert(r@ =~= seq!['='] + p@.subrange(i as int, n as int));
            }
            return r;
        }
    }
    String::from_str(p)
}

/// The requirement text of `t`, with every bare version term made exact.
fn exact_requirement(t: &str) -> (r: String)
    ensures
        r@ == exact_terms(t@),
{
    let pieces = split_text(t, ',');
    let mut terms: Vec<String> = Vec::new();
    let mut i: usize = 0;
    while i < pieces.len()
        invariant
            i <= pieces@.len(),
            pieces@.map_values(|p: String| p@) == comma_pieces(t@),
            terms@.map_values(|p: String| p@) == pieces@.subrange(0, i as int).map_values(
                |p: String| exact_term(p@),
            ),
        decreases pieces@.len() - i,
    {
        let ghost prev = terms@;
        terms.push(exact_term_of(pieces[i].as_str()));
        proof {
            assert(terms@.map_values(|p: String| p@) =~= prev.map_values(|p: String| p@).push(
                exact_term(pieces@[i as int]@),
            ));
            assert(pieces@.subrange(0, i + 1).map_values(|p: String| exact_term(p@))
                =~= pieces@.subrange(0, i as int).map_values(|p: String| exact_term(p@)).push(
                exact_term(pieces@[i as int]@),
            ));
        }
        i = i + 1;
    }
    proof {
        assert(pieces@.subrange(0, pieces@.len() as int) =~= pieces@);
        assert(terms@.map_values(|p: String| p@) =~= comma_pieces(t@).map_values(
            |p: Seq<char>| exact_term(p),
        ));
    }
    join_texts(&terms, ",")
}

fn parse_bound(s: &str, inclusive: bool) -> (r: Option<VersionBound>)
    ensures
        match r {
            Some(b) => bound_of(s@, inclusive) == Some(b@),
            None => bound_of(s@, inclusive) is None,
        },
{
    let t = trim_text(s);
    if t.unicode_len() == 0 {
        Some(VersionBound::Unbounded)
    } else {
        match SemVer::parse(t) {
            Some(v) => if inclusive {
                Some(VersionBound::Inclusive(v))
            } else {
                Some(VersionBound::Exclusive(v))
            },
            None => None,
        }
    }
}

impl VersionConstraint {
    /// Reads a constraint: a semantic-version requirement if the trimmed text
    /// is one (a bare version term meaning exactly that version), else a
    /// range enclosed by `[`/`(` and `]`/`)`; anything else is unrecognized.
    pub fn parse(s: &str) -> (r: Result<VersionConstraint, ConstraintError>)
        ensures
            match r {
                Ok(c) => constraint_of(s@) == Ok::<ConstraintView, ConstraintError>(c@),
                Err(e) => constraint_of(s@) == Err::<ConstraintView, ConstraintError>(e),
            },
    {
        let t = trim_text(s);
        let req_text = exact_requirement(t);
        if let Some(req) = SemVerReq::parse(req_text.as_str()) {
            return Ok(VersionConstraint::Semver(req));
        }
        let len = t.unicode_len();
        if len < 2 {
            return Err(ConstraintError::Unrecognized);
        }
        let open = t.get_char(0);
        let close = t.get_char(len - 1);
        if (open != '[' && open != '(') || (close != ']' && close != ')') {
            return Err(ConstraintError::Unrecognized);
        }
        let inside = t.substring_char(1, len - 1);
        proof {
            assert(inside@ =~= bracket_inside(t@));
        }
        let split = split_at_commas(inside);
        if split.count != 1 {
            return Err(ConstraintError::BoundCount);
        }
        let lo_text = inside.substring_char(0, split.first);
        let hi_text = inside.substring_char(split.first + 1, inside.unicode_len());
        let lo = match parse_bound(lo_text, open == '[') {
            Some(b) => b,
            None => return Err(ConstraintError::InvalidBound),
        };
        let hi = match parse_bound(hi_text, close == ']') {
            Some(b) => b,
            None => return Err(ConstraintError::InvalidBound),
        };
        Ok(VersionConstraint::Bracketed(lo, hi))
    }

    /// Whether `version` satisfies this constraint: both bounds of a
    /// bracketed range, or the requirement by semantic-version rules.
    pub fn matches(&self, version: &SemVer) -> (r: bool)
        ensures
            r == constraint_admits(self@, version@),
    {
        match self {
            VersionConstraint::Bracketed(lo, hi) => {
                let lower_ok = match lo.version() {
                    Some(b) => lo.admits_as_lower(compare_semver(version, b)),
                    None => lo.admits_as_lower(Ordering::Equal),
                };
                let upper_ok = match hi.version() {
                    Some(b) => hi.admits_as_upper(compare_semver(version, b)),
                    None => hi.admits_as_upper(Ordering::Equal),
                };
                lower_ok && upper_ok
            },
            VersionConstraint::Semver(req) => req.matches(version),
        }
    }
}

/// The canonical text that `semver` displays for the requirement spelled `req`.
pub uninterp spec fn semver_req_text(req: Seq<char>) -> Seq<char>;

/// Relies on `Display for semver::VersionReq`, applied to the value that
/// `req` was parsed from.
#[verifier::external_body]
fn req_display(req: &SemVerReq) -> (r: String)
    ensures
        r@ == semver_req_text(req@),
{
    req.parsed.to_string()
}

/// How a constraint is shown: a requirement in its canonical form; a range
/// with an open upper end as a `>=`/`>` comparison, other ranges in bracket
/// notation with the bounds' own texts.
pub open spec fn constraint_text(c: ConstraintView) -> Seq<char> {
    match c {
        ConstraintView::Semver(req) => semver_req_text(req),
        ConstraintView::Bracketed(lo, hi) => match (lo, hi) {
            (BoundView::Inclusive(a), BoundView::Unbounded) => ">="@ + a,
            (BoundView::Exclusive(a), BoundView::Unbounded) => ">"@ + a,
            (BoundView::Inclusive(a), BoundView::Inclusive(b)) => "["@ + a + ", "@ + b + "]"@,
            (BoundView::Exclusive(a), BoundView::Inclusive(b)) => "("@ + a + ", "@ + b + "]"@,
            (BoundView::Inclusive(a), BoundView::Exclusive(b)) => "["@ + a + ", "@ + b + ")"@,
            (BoundView::Exclusive(a), BoundView::Exclusive(b)) => "("@ + a + ", "@ + b + ")"@,
            _ => "any"@,
        },
    }
}

fn range_of(open: &str, a: &SemVer, b: &SemVer, close: &str) -> (r: String)
    ensures
        r@ == open@ + a@ + ", "@ + b@ + close@,
{
    let mut r = String::from_str(open);
    r.append(a.as_str());
    r.append(", ");
    r.append(b.as_str());
    r.append(close);
    r
}

impl VersionConstraint {
    /// The constraint as text.
    pub fn render(&self) -> (r: String)
        ensures
            r@ == constraint_text(self@),
    {
        match self {
            VersionConstraint::Semver(req) => req_display(req),
            VersionConstraint::Bracketed(lo, hi) => match (lo, hi) {
                (VersionBound::Inclusive(a), VersionBound::Unbounded) => {
                    let mut r = String::from_str(">=");
                    r.append(a.as_str());
                    r
                },
                (VersionBound::Exclusive(a), VersionBound::Unbounded) => {
                    let mut r = String::from_str(">");
                    r.append(a.as_str());
                    r
                },
                (VersionBound::Inclusive(a), VersionBound::Inclusive(b)) => range_of("[", a, b, "]"),
                (VersionBound::Exclusive(a), VersionBound::Inclusive(b)) => range_of("(", a, b, "]"),
                (VersionBound::Inclusive(a), VersionBound::Exclusive(b)) => range_of("[", a, b, ")"),
                (VersionBound::Exclusive(a), VersionBound::Exclusive(b)) => range_of("(", a, b, ")"),
                _ => String::from_str("any"),
            },
        }
    }
}

} // verus!
