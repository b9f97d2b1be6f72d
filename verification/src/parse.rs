//! Parsing of the small command-line languages: loop guards and delays.
use vstd::prelude::*;
use vstd::string::*;
use crate::graph::{LoopGuard, LoopGuardView, Status};
use crate::text::str_eq;

verus! {

/// Whether `c` has the Unicode White_Space property, which is what
/// `char::is_whitespace` tests: tab to carriage return, space, next line,
/// no-break space, Ogham space mark, the spaces from en quad to hair space,
/// line and paragraph separators, narrow no-break space, medium
/// mathematical space and ideographic space.
pub open spec fn is_white_space(c: char) -> bool {
    let u = c as u32;
    (0x9 <= u && u <= 0xD) || u == 0x20 || u == 0x85 || u == 0xA0 || u == 0x1680 || (0x2000 <= u && u <= 0x200A)
        || u == 0x2028 || u == 0x2029 || u == 0x202F || u == 0x205F || u == 0x3000
}

/// Whether `c` is white space.
fn char_is_whitespace(c: char) -> (r: bool)
    ensures
        r == is_white_space(c),
{
    let u = c as u32;
    (0x9 <= u && u <= 0xD) || u == 0x20 || u == 0x85 || u == 0xA0 || u == 0x1680 || (0x2000 <= u && u <= 0x200A)
        || u == 0x2028 || u == 0x2029 || u == 0x202F || u == 0x205F || u == 0x3000
}

/// What `str::to_lowercase` returns for the given characters.
pub uninterp spec fn lowercase(s: Seq<char>) -> Seq<char>;

/// `str::to_lowercase` (full Unicode lower-casing).
#[verifier::external_body]
pub(crate) fn to_lowercase(s: &str) -> (r: String)
    ensures
        r@ == lowercase(s@),
{
    s.to_lowercase()
}

/// Number of leading white-space characters.
pub open spec fn lead_ws(s: Seq<char>) -> nat
    decreases s.len(),
{
    if s.len() > 0 && is_white_space(s[0]) {
        1 + lead_ws(s.drop_first())
    } else {
        0
    }
}

/// Number of trailing white-space characters.
pub open spec fn trail_ws(s: Seq<char>) -> nat
    decreases s.len(),
{
    if s.len() > 0 && is_white_space(s.last()) {
        1 + trail_ws(s.drop_last())
    } else {
        0
    }
}

/// `s` without leading and trailing white space, as `str::trim` gives it.
pub open spec fn trim(s: Seq<char>) -> Seq<char> {
    let a = lead_ws(s);
    if a == s.len() {
        Seq::empty()
    } else {
        s.subrange(a as int, s.len() - trail_ws(s))
    }
}

proof fn lemma_lead_ws(s: Seq<char>, k: int)
    requires
        0 <= k <= s.len(),
        forall|j: int| 0 <= j < k ==> is_white_space(s[j]),
    ensures
        lead_ws(s) >= k,
        k < s.len() && !is_white_space(s[k]) ==> lead_ws(s) == k,
        lead_ws(s) <= s.len(),
    decreases k,
{
    lemma_lead_ws_le(s);
    if k > 0 {
        lemma_lead_ws(s.drop_first(), k - 1);
    } else if s.len() > 0 && !is_white_space(s[0]) {
    }
}

proof fn lemma_lead_ws_le(s: Seq<char>)
    ensures
        lead_ws(s) <= s.len(),
        lead_ws(s) < s.len() ==> !is_white_space(s[lead_ws(s) as int]),
        forall|j: int| 0 <= j < lead_ws(s) ==> is_white_space(#[trigger] s[j]),
    decreases s.len(),
{
    if s.len() > 0 && is_white_space(s[0]) {
        lemma_lead_ws_le(s.drop_first());
        assert forall|j: int| 0 <= j < lead_ws(s) implies is_white_space(#[trigger] s[j]) by {
            if j > 0 {
                assert(s[j] == s.drop_first()[j - 1]);
            }
        }
    }
}

proof fn lemma_trail_ws_le(s: Seq<char>)
    ensures
        trail_ws(s) <= s.len(),
        trail_ws(s) < s.len() ==> !is_white_space(s[s.len() - 1 - trail_ws(s)]),
        forall|j: int| s.len() - trail_ws(s) <= j < s.len() ==> is_white_space(#[trigger] s[j]),
    decreases s.len(),
{
    if s.len() > 0 && is_white_space(s.last()) {
        lemma_trail_ws_le(s.drop_last());
        assert forall|j: int| s.len() - trail_ws(s) <= j < s.len() implies is_white_space(#[trigger] s[j]) by {
            if j < s.len() - 1 {
                assert(s[j] == s.drop_last()[j]);
            }
        }
    }
}

proof fn lemma_trail_ws(s: Seq<char>, k: int)
    requires
        0 <= k <= s.len(),
        forall|j: int| s.len() - k <= j < s.len() ==> is_white_space(s[j]),
        k < s.len() ==> !is_white_space(s[s.len() - 1 - k]),
    ensures
        trail_ws(s) == k,
    decreases k,
{
    if k > 0 {
        assert(is_white_space(s.last()));
        assert forall|j: int| s.drop_last().len() - (k - 1) <= j < s.drop_last().len() implies is_white_space(s.drop_last()[j]) by {
            assert(s.drop_last()[j] == s[j]);
        }
        if k - 1 < s.drop_last().len() {
            assert(s.drop_last()[s.drop_last().len() - 1 - (k - 1)] == s[s.len() - 1 - k]);
        }
        lemma_trail_ws(s.drop_last(), k - 1);
    }
}

/// `str::trim`, computed character by character.
pub fn trim_str(s: &str) -> (r: &str)
    ensures
        r@ == trim(s@),
{
    let n = s.unicode_len();
    let mut a: usize = 0;
    while a < n && char_is_whitespace(s.get_char(a))
        invariant
            n == s@.len(),
            a <= n,
            forall|j: int| 0 <= j < a ==> is_white_space(s@[j]),
        decreases n - a,
    {
        a = a + 1;
    }
    proof {
        lemma_lead_ws(s@, a as int);
    }
    if a == n {
        return s.substring_char(0, 0);
    }
    let mut b: usize = n;
    while b > a && char_is_whitespace(s.get_char(b - 1))
        invariant
            n == s@.len(),
            a < n,
            a <= b <= n,
            !is_white_space(s@[a as int]),
            forall|j: int| b <= j < n ==> is_white_space(s@[j]),
        decreases b,
    {
        b = b - 1;
    }
    proof {
        lemma_trail_ws(s@, (n - b) as int);
    }
    s.substring_char(a, b)
}

/// ASCII lower-casing of one character.
pub open spec fn ascii_lower(c: char) -> char {
    if 'A' <= c <= 'Z' {
        ((c as u32) + 32) as char
    } else {
        c
    }
}

/// `str::eq_ignore_ascii_case` against a lower-case ASCII word.
pub open spec fn eq_ignore_ascii_case(s: Seq<char>, word: Seq<char>) -> bool {
    s.len() == word.len() && forall|i: int| 0 <= i < s.len() ==> ascii_lower(#[trigger] s[i]) == word[i]
}

fn lower_char(c: char) -> (r: char)
    ensures
        r == ascii_lower(c),
{
    if 'A' <= c && c <= 'Z' {
        let u: u8 = (c as u8) + 32;
        u as char
    } else {
        c
    }
}

fn matches_word_ignore_case(s: &str, word: &str) -> (r: bool)
    ensures
        r == eq_ignore_ascii_case(s@, word@),
{
    let n = s.unicode_len();
    if n != word.unicode_len() {
        return false;
    }
    let mut i: usize = 0;
    while i < n
        invariant
            n == s@.len(),
            n == word@.len(),
            i <= n,
            forall|j: int| 0 <= j < i ==> ascii_lower(#[trigger] s@[j]) == word@[j],
        decreases n - i,
    {
        if lower_char(s.get_char(i)) != word.get_char(i) {
            return false;
        }
        i = i + 1;
    }
    true
}

/// Position of the first occurrence of `c`.
pub open spec fn first_index_of(s: Seq<char>, c: char) -> Option<int> {
    if exists|i: int| 0 <= i < s.len() && s[i] == c {
        Some(choose|i: int| 0 <= i < s.len() && s[i] == c && forall|j: int| 0 <= j < i ==> s[j] != c)
    } else {
        None
    }
}

fn find_char(s: &str, c: char) -> (r: Option<usize>)
    ensures
        match r {
            Some(i) => i < s@.len() && s@[i as int] == c && forall|j: int| 0 <= j < i ==> s@[j] != c,
            None => forall|j: int| 0 <= j < s@.len() ==> s@[j] != c,
        },
{
    let n = s.unicode_len();
    let mut i: usize = 0;
    while i < n
        invariant
            n == s@.len(),
            i <= n,
            forall|j: int| 0 <= j < i ==> s@[j] != c,
        decreases n - i,
    {
        if s.get_char(i) == c {
            return Some(i);
        }
        i = i + 1;
    }
    None
}

/// Why a guard expression was rejected.
#[derive(Debug, Clone, PartialEq, Eq)]
pub enum GuardError {
    /// The status after `=` is not a known status; carries it.
    UnknownStatus(String),
    /// `task:` without `=`; carries the trimmed expression.
    InvalidFormat(String),
    /// Neither `always` nor `task:...`; carries the trimmed expression.
    InvalidExpression(String),
}

pub ghost enum GuardErrorView {
    UnknownStatus(Seq<char>),
    InvalidFormat(Seq<char>),
    InvalidExpression(Seq<char>),
}

impl View for GuardError {
    type V = GuardErrorView;

    open spec fn view(&self) -> GuardErrorView {
        match self {
            GuardError::UnknownStatus(s) => GuardErrorView::UnknownStatus(s@),
            GuardError::InvalidFormat(s) => GuardErrorView::InvalidFormat(s@),
            GuardError::InvalidExpression(s) => GuardErrorView::InvalidExpression(s@),
        }
    }
}

/// The status named in a guard (compared after lower-casing).
pub open spec fn guard_status(name: Seq<char>) -> Option<Status> {
    let l = lowercase(name);
    if l == "open"@ {
        Some(Status::Open)
    } else if l == "in-progress"@ {
        Some(Status::InProgress)
    } else if l == "done"@ {
        Some(Status::Done)
    } else if l == "blocked"@ {
        Some(Status::Blocked)
    } else if l == "failed"@ {
        Some(Status::Failed)
    } else if l == "abandoned"@ {
        Some(Status::Abandoned)
    } else if l == "pending-review"@ {
        Some(Status::Done)
    } else {
        None
    }
}

/// The meaning of a guard expression: `always` (any ASCII case), or
/// `task:<id>=<status>`, split at the first `=`; surrounding white space is
/// ignored. A deprecated `pending-review` status means done.
pub open spec fn guard_of(expr: Seq<char>) -> Result<LoopGuardView, GuardErrorView> {
    let e = trim(expr);
    if eq_ignore_ascii_case(e, "always"@) {
        Ok(LoopGuardView::Always)
    } else if e.len() >= 5 && e.subrange(0, 5) == "task:"@ {
        let rest = e.subrange(5, e.len() as int);
        match first_index_of(rest, '=') {
            Some(k) => {
                let name = rest.subrange(k + 1, rest.len() as int);
                match guard_status(name) {
                    Some(st) => Ok(LoopGuardView::TaskStatus { task: rest.subrange(0, k), status: st }),
                    None => Err(GuardErrorView::UnknownStatus(name)),
                }
            },
            None => Err(GuardErrorView::InvalidFormat(e)),
        }
    } else {
        Err(GuardErrorView::InvalidExpression(e))
    }
}

fn status_named(name: &str) -> (r: Option<Status>)
    ensures
        r == guard_status(name@),
{
    let l = to_lowercase(name);
    let l = l.as_str();
    if str_eq(l, "open") {
        Some(Status::Open)
    } else if str_eq(l, "in-progress") {
        Some(Status::InProgress)
    } else if str_eq(l, "done") {
        Some(Status::Done)
    } else if str_eq(l, "blocked") {
        Some(Status::Blocked)
    } else if str_eq(l, "failed") {
        Some(Status::Failed)
    } else if str_eq(l, "abandoned") {
        Some(Status::Abandoned)
    } else if str_eq(l, "pending-review") {
        Some(Status::Done)
    } else {
        None
    }
}

/// Parse a guard expression: `task:<id>=<status>` or `always`.
pub fn parse_guard_expr(expr: &str) -> (r: Result<LoopGuard, GuardError>)
    ensures
        match r {
            Ok(g) => guard_of(expr@) == Ok::<LoopGuardView, GuardErrorView>(g@),
            Err(e) => guard_of(expr@) == Err::<LoopGuardView, GuardErrorView>(e@),
        },
{
    proof {
        reveal_strlit("always");
        reveal_strlit("task:");
    }
    let e = trim_str(expr);
    if matches_word_ignore_case(e, "always") {
        return Ok(LoopGuard::Always);
    }
    let n = e.unicode_len();
    if n >= 5 && str_eq(e.substring_char(0, 5), "task:") {
        let rest = e.substring_char(5, n);
        match find_char(rest, '=') {
            Some(k) => {
                let m = rest.unicode_len();
                proof {
                    let rs = rest@;
                    assert(exists|i: int| 0 <= i < rs.len() && rs[i] == '=');
                    let c = choose|i: int| 0 <= i < rs.len() && rs[i] == '=' && forall|j: int| 0 <= j < i ==> rs[j] != '=';
                    assert(c == k);
                }
                let name = rest.substring_char(k + 1, m);
                match status_named(name) {
                    Some(st) => Ok(LoopGuard::TaskStatus { task: rest.substring_char(0, k).to_string(), status: st }),
                    None => Err(GuardError::UnknownStatus(name.to_string())),
                }
            },
            None => Err(GuardError::InvalidFormat(e.to_string())),
        }
    } else {
        Err(GuardError::InvalidExpression(e.to_string()))
    }
}

// ---------------------------------------------------------------------------
// Delays
// ---------------------------------------------------------------------------

/// Seconds in one unit of a delay: `s`, `m`, `h` or `d`.
pub open spec fn delay_unit(c: char) -> Option<nat> {
    if c == 's' {
        Some(1)
    } else if c == 'm' {
        Some(60)
    } else if c == 'h' {
        Some(3600)
    } else if c == 'd' {
        Some(86400)
    } else {
        None
    }
}

/// Whether `c` is an ASCII digit.
pub open spec fn is_digit(c: char) -> bool {
    '0' <= c <= '9'
}

/// The value of a run of ASCII digits.
pub open spec fn digits_value(s: Seq<char>) -> nat
    decreases s.len(),
{
    if s.len() == 0 {
        0
    } else {
        digits_value(s.drop_last()) * 10 + ((s.last() as nat) - ('0' as nat)) as nat
    }
}

/// The number of seconds a delay such as `30s`, `5m`, `1h`, `24h` or `7d`
/// stands for: digits then a unit, surrounding white space ignored; none when
/// the text is not of that form or the number does not fit 64 bits.
pub open spec fn delay_seconds(s: Seq<char>) -> Option<nat> {
    let t = trim(s);
    if t.len() < 2 {
        None
    } else {
        let digits = t.drop_last();
        match delay_unit(t.last()) {
            Some(u) => if (forall|i: int| 0 <= i < digits.len() ==> is_digit(#[trigger] digits[i]))
                && digits_value(digits) * u <= u64::MAX {
                Some(digits_value(digits) * u)
            } else {
                None
            },
            None => None,
        }
    }
}

pub proof fn lemma_digits_mono(s: Seq<char>, k: int)
    requires
        0 <= k <= s.len(),
        forall|i: int| 0 <= i < s.len() ==> is_digit(#[trigger] s[i]),
    ensures
        digits_value(s.take(k)) <= digits_value(s),
    decreases s.len() - k,
{
    if k < s.len() {
        lemma_digits_mono(s, k + 1);
        assert(s.take(k + 1).drop_last() =~= s.take(k));
        assert(digits_value(s.take(k + 1)) == digits_value(s.take(k)) * 10 + ((s[k] as nat) - ('0' as nat)) as nat);
    } else {
        assert(s.take(k) =~= s);
    }
}

/// Parse a loop delay such as `30s`, `5m`, `1h`, `24h` or `7d` into seconds.
pub fn parse_delay(s: &str) -> (r: Option<u64>)
    ensures
        match r {
            Some(v) => delay_seconds(s@) == Some(v as nat),
            None => delay_seconds(s@) is None,
        },
{
    let t = trim_str(s);
    let n = t.unicode_len();
    if n < 2 {
        return None;
    }
    let c = t.get_char(n - 1);
    assert(c == t@.last());
    assert(trim(s@) == t@);
    let unit: u64 = if c == 's' {
        1
    } else if c == 'm' {
        60
    } else if c == 'h' {
        3600
    } else if c == 'd' {
        86400
    } else {
        return None;
    };
    let ghost digits = t@.drop_last();
    let mut value: u64 = 0;
    let mut i: usize = 0;
    while i < n - 1
        invariant
            n == t@.len(),
            n >= 2,
            t@ == trim(s@),
            delay_unit(t@.last()) == Some(unit as nat),
            unit >= 1,
            digits == t@.drop_last(),
            i <= n - 1,
            forall|j: int| 0 <= j < i ==> is_digit(#[trigger] digits[j]),
            value == digits_value(digits.take(i as int)),
        decreases n - 1 - i,
    {
        let d = t.get_char(i);
        assert(d == digits[i as int]);
        if !('0' <= d && d <= '9') {
            assert(!is_digit(digits[i as int]));
            return None;
        }
        let dv: u64 = (d as u32 - '0' as u32) as u64;
        assert(digits.take(i + 1).drop_last() =~= digits.take(i as int));
        let next = match value.checked_mul(10) {
            Some(x) => x.checked_add(dv),
            None => None,
        };
        match next {
            Some(x) => {
                value = x;
            },
            None => {
                proof {
                    assert forall|j: int| 0 <= j < i + 1 implies is_digit(#[trigger] digits.take(i + 1)[j]) by {}
                    assert(digits_value(digits.take(i + 1)) == value * 10 + dv);
                    if forall|j: int| 0 <= j < digits.len() ==> is_digit(#[trigger] digits[j]) {
                        lemma_digits_mono(digits, i + 1);
                        assert(digits_value(digits) * unit >= digits_value(digits)) by (nonlinear_arith)
                            requires unit >= 1;
                    }
                }
                return None;
            },
        }
        i = i + 1;
    }
    assert(digits.take((n - 1) as int) =~= digits);
    value.checked_mul(unit)
}

} // verus!
