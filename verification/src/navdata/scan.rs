//! Character-level scanning primitives shared by all of the row grammars:
//! whitespace handling, bounded tokens, integers in decimal notation, and
//! exact decimal numbers.
//!
//! Every primitive is specified against pure functions over the line's
//! character sequence, so that each row parser's contract can state exactly
//! which lines are accepted and what they decode to.

use vstd::prelude::*;
use vstd::string::*;

verus! {

/// A scanning failure, carrying the character position it arose at.
#[derive(Debug, Clone, Copy, PartialEq, Eq, Structural)]
pub struct RowError {
    pub pos: usize,
}

/// The whitespace accepted between columns: spaces and horizontal tabs.
pub open spec fn is_space(c: char) -> bool {
    c == ' ' || c == '\t'
}

/// First position at or after `i` holding a non-space character (or the end).
pub open spec fn skip_spaces(s: Seq<char>, i: int) -> int
    recommends
        0 <= i <= s.len(),
    decreases s.len() - i when 0 <= i <= s.len()
{
    if i < s.len() && is_space(s[i]) {
        skip_spaces(s, i + 1)
    } else {
        i
    }
}

/// First position at or after `i` holding a space (or the end): the end of
/// the token starting at `i`.
pub open spec fn token_end(s: Seq<char>, i: int) -> int
    recommends
        0 <= i <= s.len(),
    decreases s.len() - i when 0 <= i <= s.len()
{
    if i < s.len() && !is_space(s[i]) {
        token_end(s, i + 1)
    } else {
        i
    }
}

pub open spec fn is_digit(c: char) -> bool {
    '0' <= c && c <= '9'
}

pub open spec fn digit_val(c: char) -> int {
    c as int - '0' as int
}

/// First position at or after `i` holding a non-digit (or the end).
pub open spec fn digits_end(s: Seq<char>, i: int) -> int
    recommends
        0 <= i <= s.len(),
    decreases s.len() - i when 0 <= i <= s.len()
{
    if i < s.len() && is_digit(s[i]) {
        digits_end(s, i + 1)
    } else {
        i
    }
}

/// Numeric value of a digit string, most significant digit first.
pub open spec fn digits_val(s: Seq<char>) -> int
    decreases s.len(),
{
    if s.len() == 0 {
        0
    } else {
        digits_val(s.drop_last()) * 10 + digit_val(s.last())
    }
}

pub open spec fn all_digits(s: Seq<char>) -> bool {
    forall|j: int| 0 <= j < s.len() ==> is_digit(#[trigger] s[j])
}

pub proof fn lemma_skip_spaces_bounds(s: Seq<char>, i: int)
    requires
        0 <= i <= s.len(),
    ensures
        i <= skip_spaces(s, i) <= s.len(),
        skip_spaces(s, i) < s.len() ==> !is_space(s[skip_spaces(s, i)]),
        forall|j: int| i <= j < skip_spaces(s, i) ==> is_space(#[trigger] s[j]),
    decreases s.len() - i,
{
    if i < s.len() && is_space(s[i]) {
        lemma_skip_spaces_bounds(s, i + 1);
    }
}

pub proof fn lemma_token_end_bounds(s: Seq<char>, i: int)
    requires
        0 <= i <= s.len(),
    ensures
        i <= token_end(s, i) <= s.len(),
        token_end(s, i) < s.len() ==> is_space(s[token_end(s, i)]),
        forall|j: int| i <= j < token_end(s, i) ==> !is_space(#[trigger] s[j]),
    decreases s.len() - i,
{
    if i < s.len() && !is_space(s[i]) {
        lemma_token_end_bounds(s, i + 1);
    }
}

pub proof fn lemma_digits_end_bounds(s: Seq<char>, i: int)
    requires
        0 <= i <= s.len(),
    ensures
        i <= digits_end(s, i) <= s.len(),
        digits_end(s, i) < s.len() ==> !is_digit(s[digits_end(s, i)]),
        forall|j: int| i <= j < digits_end(s, i) ==> is_digit(#[trigger] s[j]),
    decreases s.len() - i,
{
    if i < s.len() && is_digit(s[i]) {
        lemma_digits_end_bounds(s, i + 1);
    }
}

pub proof fn lemma_digits_val_nonneg(s: Seq<char>)
    requires
        all_digits(s),
    ensures
        digits_val(s) >= 0,
    decreases s.len(),
{
    if s.len() > 0 {
        assert(all_digits(s.drop_last())) by {
            assert(forall|j: int|
                0 <= j < s.len() - 1 ==> is_digit(#[trigger] s.drop_last()[j]) == is_digit(s[j]));
        }
        lemma_digits_val_nonneg(s.drop_last());
    }
}

/// Appending one digit multiplies the value by ten and adds the digit.
pub proof fn lemma_digits_val_push(s: Seq<char>, c: char)
    ensures
        digits_val(s.push(c)) == digits_val(s) * 10 + digit_val(c),
{
    assert(s.push(c).drop_last() =~= s);
    assert(s.push(c).last() == c);
}

/// Ten to the `n`.
pub open spec fn pow10(n: nat) -> int
    decreases n,
{
    if n == 0 {
        1
    } else {
        10 * pow10((n - 1) as nat)
    }
}

pub proof fn lemma_pow10_pos(n: nat)
    ensures
        pow10(n) >= 1,
    decreases n,
{
    if n > 0 {
        lemma_pow10_pos((n - 1) as nat);
    }
}

/// The value of two digit runs in sequence.
pub proof fn lemma_digits_val_concat(a: Seq<char>, b: Seq<char>)
    ensures
        digits_val(a + b) == digits_val(a) * pow10(b.len()) + digits_val(b),
    decreases b.len(),
{
    if b.len() == 0 {
        assert(a + b =~= a);
    } else {
        lemma_digits_val_concat(a, b.drop_last());
        assert((a + b).drop_last() =~= a + b.drop_last());
        assert((a + b).last() == b.last());
        assert(digits_val(a + b) == (digits_val(a) * pow10((b.len() - 1) as nat) + digits_val(
            b.drop_last(),
        )) * 10 + digit_val(b.last()));
        assert(digits_val(a) * pow10((b.len() - 1) as nat) * 10 == digits_val(a) * pow10(b.len()))
            by (nonlinear_arith)
            requires
                pow10(b.len()) == 10 * pow10((b.len() - 1) as nat),
        ;
    }
}

/// A digit run is worth at least its prefix.
pub proof fn lemma_digits_val_prefix_le(a: Seq<char>, b: Seq<char>)
    requires
        all_digits(a),
        all_digits(b),
    ensures
        digits_val(a) <= digits_val(a + b),
{
    lemma_digits_val_concat(a, b);
    lemma_digits_val_nonneg(a);
    lemma_digits_val_nonneg(b);
    lemma_pow10_pos(b.len());
    assert(digits_val(a) * 1 <= digits_val(a) * pow10(b.len())) by (nonlinear_arith)
        requires
            digits_val(a) >= 0,
            1 <= pow10(b.len()),
    ;
}

/// A slice of an all-digit span is itself all digits.
pub proof fn lemma_subrange_all_digits(s: Seq<char>, a: int, b: int)
    requires
        0 <= a <= b <= s.len(),
        forall|j: int| a <= j < b ==> is_digit(#[trigger] s[j]),
    ensures
        all_digits(s.subrange(a, b)),
{
    assert forall|j: int| 0 <= j < b - a implies is_digit(#[trigger] s.subrange(a, b)[j]) by {
        assert(s.subrange(a, b)[j] == s[a + j]);
    }
}

/// Two digit runs of one width with one value are the same text: the
/// decimal reading is injective at fixed width.
pub proof fn lemma_digits_val_injective(a: Seq<char>, b: Seq<char>)
    requires
        all_digits(a),
        all_digits(b),
        a.len() == b.len(),
        digits_val(a) == digits_val(b),
    ensures
        a == b,
    decreases a.len(),
{
    if a.len() == 0 {
        assert(a =~= b);
    } else {
        let da = digit_val(a.last());
        let db = digit_val(b.last());
        assert(is_digit(a.last()) && is_digit(b.last()));
        assert forall|j: int| 0 <= j < a.len() - 1 implies is_digit(#[trigger] a.drop_last()[j])
            && is_digit(b.drop_last()[j]) by {
            assert(a.drop_last()[j] == a[j]);
            assert(b.drop_last()[j] == b[j]);
        }
        lemma_digits_val_nonneg(a.drop_last());
        lemma_digits_val_nonneg(b.drop_last());
        assert(digits_val(a.drop_last()) * 10 + da == digits_val(b.drop_last()) * 10 + db);
        assert(digits_val(a.drop_last()) == digits_val(b.drop_last()) && da == db)
            by (nonlinear_arith)
            requires
                digits_val(a.drop_last()) * 10 + da == digits_val(b.drop_last()) * 10 + db,
                0 <= da <= 9,
                0 <= db <= 9,
                digits_val(a.drop_last()) >= 0,
                digits_val(b.drop_last()) >= 0,
        ;
        lemma_digits_val_injective(a.drop_last(), b.drop_last());
        assert(a.last() as int == b.last() as int);
        assert(a.last() == b.last());
        assert(a =~= a.drop_last().push(a.last()));
        assert(b =~= b.drop_last().push(b.last()));
    }
}

pub proof fn lemma_pow10_mono(a: nat, b: nat)
    requires
        a <= b,
    ensures
        pow10(a) <= pow10(b),
    decreases b,
{
    if a < b {
        lemma_pow10_mono(a, (b - 1) as nat);
        lemma_pow10_pos((b - 1) as nat);
    }
}

/// An exact decimal number: the value is `mantissa / 10^scale`, negated when
/// `neg` holds.  Columns that the distribution packs in base ten (combined
/// course fields, leg lengths, coordinates) are kept in this form so that
/// splitting them by modulus and division loses nothing.
#[derive(Debug, Clone, Copy, PartialEq, Eq, Structural)]
pub struct Dec {
    pub neg: bool,
    pub mantissa: u64,
    pub scale: u8,
}

impl Dec {
    pub open spec fn wf(self) -> bool {
        self.scale <= 19
    }

    /// The signed mantissa: the value is this over `10^scale`.
    pub open spec fn sval(self) -> int {
        if self.neg {
            -(self.mantissa as int)
        } else {
            self.mantissa as int
        }
    }

    pub open spec fn spec_is_zero(self) -> bool {
        self.mantissa == 0
    }

    /// Whether the value is zero (of either sign, at any scale).
    pub fn is_zero(&self) -> (r: bool)
        ensures
            r == self.spec_is_zero(),
    {
        self.mantissa == 0
    }

    /// Split off the integral multiple of `m`: returns the quotient of the
    /// absolute value by `m` and the remainder, which keeps this number's
    /// sign and scale.  This is the decoding step for the packed
    /// course-plus-angle columns.
    pub fn mod_div(&self, m: u32) -> (r: (u64, Dec))
        requires
            self.wf(),
            m >= 1,
        ensures
            ({
                let md = m * pow10(self.scale as nat);
                &&& r.0 == self.mantissa as int / md
                &&& r.1 == (Dec { mantissa: (self.mantissa as int % md) as u64, ..*self })
                &&& r.1.wf()
            }),
    {
        proof {
            lemma_pow10_pos(self.scale as nat);
            lemma_pow10_mono(self.scale as nat, 19);
            reveal_with_fuel(pow10, 20);
            assert(pow10(19) == 10_000_000_000_000_000_000);
        }
        let p = pow10_u128(self.scale as usize);
        proof {
            assert(1 <= (m as u128) * p <= 0x1_0000_0000u128 * 10_000_000_000_000_000_000u128)
                by (nonlinear_arith)
                requires
                    1 <= m as u128 <= 0x1_0000_0000u128,
                    1 <= p <= 10_000_000_000_000_000_000u128,
            ;
        }
        let md: u128 = (m as u128) * p;
        let mant: u128 = self.mantissa as u128;
        let q: u128 = mant / md;
        let rem: u128 = mant % md;
        proof {
            assert(q * md + rem == mant && rem < md && q <= mant) by (nonlinear_arith)
                requires
                    md >= 1,
                    q == mant / md,
                    rem == mant % md,
            ;
        }
        (q as u64, Dec { neg: self.neg, mantissa: rem as u64, scale: self.scale })
    }
}

/// The value of an `n`-digit run is below ten to the `n`.
pub proof fn lemma_digits_val_bound(s: Seq<char>)
    requires
        all_digits(s),
    ensures
        0 <= digits_val(s) < pow10(s.len()),
    decreases s.len(),
{
    if s.len() == 0 {
    } else {
        assert forall|j: int| 0 <= j < s.len() - 1 implies is_digit(#[trigger] s.drop_last()[j]) by {
            assert(s.drop_last()[j] == s[j]);
        }
        lemma_digits_val_bound(s.drop_last());
        assert(is_digit(s.last()));
        assert(digits_val(s.drop_last()) * 10 <= (pow10((s.len() - 1) as nat) - 1) * 10)
            by (nonlinear_arith)
            requires
                digits_val(s.drop_last()) <= pow10((s.len() - 1) as nat) - 1,
        ;
    }
}

/// First position at or after `i` holding `c` (or the end).
pub open spec fn find_char(s: Seq<char>, i: int, c: char) -> int
    recommends
        0 <= i <= s.len(),
    decreases s.len() - i when 0 <= i <= s.len()
{
    if i < s.len() && s[i] != c {
        find_char(s, i + 1, c)
    } else {
        i
    }
}

pub proof fn lemma_find_char_bounds(s: Seq<char>, i: int, c: char)
    requires
        0 <= i <= s.len(),
    ensures
        i <= find_char(s, i, c) <= s.len(),
        find_char(s, i, c) < s.len() ==> s[find_char(s, i, c)] == c,
        forall|j: int| i <= j < find_char(s, i, c) ==> s[j] != c,
    decreases s.len() - i,
{
    if i < s.len() && s[i] != c {
        lemma_find_char_bounds(s, i + 1, c);
    }
}

/// Whether two string slices hold the same characters.
pub fn str_eq(a: &str, b: &str) -> (r: bool)
    ensures
        r == (a@ == b@),
{
    let la = a.unicode_len();
    let lb = b.unicode_len();
    if la != lb {
        return false;
    }
    let mut k: usize = 0;
    while k < la
        invariant
            k <= la,
            la == a@.len(),
            la == b@.len(),
            forall|j: int| 0 <= j < k ==> a@[j] == b@[j],
        decreases la - k,
    {
        if a.get_char(k) != b.get_char(k) {
            return false;
        }
        k = k + 1;
    }
    proof {
        assert(a@ =~= b@);
    }
    true
}

/// The packed-column split loses nothing: the quotient scaled back by `m`
/// plus the remainder is exactly the packed value.  For a localizer course
/// column split by 360 this is the law `crs_mag * 360 + crs_true ==
/// funny_number`, stated over the signed mantissas at the packed value's own
/// scale.
pub proof fn lemma_mod_div_exact(d: Dec, m: u32, q: u64, rem: Dec)
    requires
        d.wf(),
        m >= 1,
        q == d.mantissa as int / (m * pow10(d.scale as nat)),
        rem == (Dec {
            mantissa: (d.mantissa as int % (m * pow10(d.scale as nat))) as u64,
            ..d
        }),
    ensures
        q * m * pow10(d.scale as nat) + rem.mantissa == d.mantissa,
        rem.mantissa < m * pow10(d.scale as nat),
        d.neg ==> d.sval() == -(q * m * pow10(d.scale as nat)) + rem.sval(),
        !d.neg ==> d.sval() == q * m * pow10(d.scale as nat) + rem.sval(),
{
    let md = m * pow10(d.scale as nat);
    lemma_pow10_pos(d.scale as nat);
    assert(md >= 1) by (nonlinear_arith)
        requires
            m >= 1,
            pow10(d.scale as nat) >= 1,
            md == m * pow10(d.scale as nat),
    ;
    vstd::arithmetic::div_mod::lemma_fundamental_div_mod(d.mantissa as int, md);
    vstd::arithmetic::div_mod::lemma_mod_division_less_than_divisor(d.mantissa as int, md);
    vstd::arithmetic::div_mod::lemma_div_pos_is_pos(d.mantissa as int, md);
    if md <= d.mantissa as int {
        assert(d.mantissa as int % md < md <= d.mantissa as int);
    } else {
        vstd::arithmetic::div_mod::lemma_small_mod(d.mantissa as nat, md as nat);
    }
    assert(0 <= d.mantissa as int % md <= d.mantissa as int);
    assert(md * (d.mantissa as int / md) == (d.mantissa as int / md) * md) by (nonlinear_arith);
    assert(q * m * pow10(d.scale as nat) == q * md) by (nonlinear_arith)
        requires
            md == m * pow10(d.scale as nat),
    ;
}

/// A decimal scaled down by ten to the `k`: exact, or `None` when the
/// scale would exceed what `Dec` carries.
pub open spec fn sp_div_pow10(d: Dec, k: int) -> Option<Dec> {
    if d.scale + k <= 19 {
        Some(Dec { neg: d.neg, mantissa: d.mantissa, scale: (d.scale + k) as u8 })
    } else {
        None
    }
}

impl Dec {
    /// Divide by ten to the `k`, exactly.
    pub fn div_pow10(&self, k: u8) -> (r: Option<Dec>)
        requires
            self.wf(),
            k <= 19,
        ensures
            r == sp_div_pow10(*self, k as int),
            r matches Some(d) ==> d.wf(),
    {
        if self.scale as u16 + k as u16 <= 19 {
            Some(Dec { neg: self.neg, mantissa: self.mantissa, scale: self.scale + k })
        } else {
            None
        }
    }
}

/// Ten to the `n`, executable.
fn pow10_u128(n: usize) -> (r: u128)
    requires
        n <= 19,
    ensures
        r == pow10(n as nat),
{
    let mut r: u128 = 1;
    let mut k: usize = 0;
    while k < n
        invariant
            k <= n <= 19,
            r == pow10(k as nat),
        decreases n - k,
    {
        proof {
            lemma_pow10_mono(k as nat, 18);
            reveal_with_fuel(pow10, 20);
            assert(pow10(18) == 1_000_000_000_000_000_000);
            lemma_pow10_pos(k as nat);
        }
        r = r * 10;
        k = k + 1;
    }
    r
}

/// The decimal grammar: an optional sign, a nonempty digit run, and an
/// optional dot followed by a nonempty digit run.  `None` when the text does
/// not match, when the combined digits exceed `u64`, or when there are more
/// than 19 fraction digits.
pub open spec fn sp_dec(s: Seq<char>, i: int) -> Option<(Dec, int)>
    recommends
        0 <= i <= s.len(),
{
    let (neg, j) = sign_at(s, i);
    let de = digits_end(s, j);
    if de == j {
        None
    } else if de < s.len() && s[de] == '.' {
        let fe = digits_end(s, de + 1);
        if fe == de + 1 {
            None
        } else {
            let digits = s.subrange(j, de) + s.subrange(de + 1, fe);
            let scale = fe - de - 1;
            if digits_val(digits) > u64::MAX || scale > 19 {
                None
            } else {
                Some((Dec { neg, mantissa: digits_val(digits) as u64, scale: scale as u8 }, fe))
            }
        }
    } else {
        let digits = s.subrange(j, de);
        if digits_val(digits) > u64::MAX {
            None
        } else {
            Some((Dec { neg, mantissa: digits_val(digits) as u64, scale: 0 }, de))
        }
    }
}

/// An optional leading sign: whether the number is negative, and the
/// position of its first digit.
pub open spec fn sign_at(s: Seq<char>, i: int) -> (bool, int) {
    if i < s.len() && s[i] == '-' {
        (true, i + 1)
    } else if i < s.len() && s[i] == '+' {
        (false, i + 1)
    } else {
        (false, i)
    }
}

/// The cursor over one line of input.
pub struct Scanner<'a> {
    s: &'a str,
    pos: usize,
    len: usize,
}

impl<'a> Scanner<'a> {
    /// The character sequence being scanned.
    pub closed spec fn src(self) -> Seq<char> {
        self.s@
    }

    /// The current position.
    pub closed spec fn at(self) -> int {
        self.pos as int
    }

    pub closed spec fn inv(self) -> bool {
        self.pos <= self.len && self.len == self.s@.len()
    }

    pub open spec fn wf(self) -> bool {
        &&& self.inv()
        &&& 0 <= self.at() <= self.src().len()
    }

    pub fn new(s: &'a str) -> (r: Scanner<'a>)
        ensures
            r.wf(),
            r.src() == s@,
            r.at() == 0,
    {
        let len = s.unicode_len();
        Scanner { s, pos: 0, len }
    }

    /// Whether the whole line has been consumed.
    pub fn at_end(&self) -> (r: bool)
        requires
            self.wf(),
        ensures
            r == (self.at() == self.src().len()),
    {
        self.pos == self.len
    }

    /// Consume any run of spaces.
    pub fn skip_spaces(&mut self)
        requires
            old(self).wf(),
        ensures
            final(self).wf(),
            final(self).src() == old(self).src(),
            final(self).at() == skip_spaces(old(self).src(), old(self).at()),
    {
        while self.pos < self.len && self.cur_is_space()
            invariant
                self.wf(),
                self.s@ == old(self).src(),
                skip_spaces(self.s@, self.pos as int) == skip_spaces(old(self).src(), old(self).at()),
            decreases self.len - self.pos,
        {
            self.pos = self.pos + 1;
        }
    }

    /// Whether the character under the cursor is a space or a tab.
    fn cur_is_space(&self) -> (r: bool)
        requires
            self.wf(),
            self.at() < self.src().len(),
        ensures
            r == is_space(self.src()[self.at()]),
    {
        let c = self.s.get_char(self.pos);
        c == ' ' || c == '\t'
    }

    /// Require at least one space, then consume the whole run.
    pub fn space1(&mut self) -> (r: Result<(), RowError>)
        requires
            old(self).wf(),
        ensures
            final(self).wf(),
            final(self).src() == old(self).src(),
            r is Ok <==> old(self).at() < old(self).src().len() && is_space(
                old(self).src()[old(self).at()],
            ),
            r is Ok ==> final(self).at() == skip_spaces(old(self).src(), old(self).at()),
            r is Err ==> *final(self) == *old(self),
    {
        if self.pos < self.len && self.cur_is_space() {
            self.skip_spaces();
            Ok(())
        } else {
            Err(RowError { pos: self.pos })
        }
    }

    /// A copy of the characters `from .. to` of the line.
    fn take_sub(&self, from: usize, to: usize) -> (r: String)
        requires
            self.wf(),
            from <= to <= self.src().len(),
        ensures
            r@ == self.src().subrange(from as int, to as int),
    {
        String::from_str(self.s.substring_char(from, to))
    }

    /// Advance over the maximal run of non-space characters and return it.
    fn take_run(&mut self) -> (r: String)
        requires
            old(self).wf(),
        ensures
            final(self).wf(),
            final(self).src() == old(self).src(),
            final(self).at() == token_end(old(self).src(), old(self).at()),
            r@ == old(self).src().subrange(old(self).at(), final(self).at()),
    {
        proof {
            lemma_token_end_bounds(self.s@, self.pos as int);
        }
        let start = self.pos;
        while self.pos < self.len && !self.cur_is_space()
            invariant
                self.wf(),
                self.s@ == old(self).src(),
                start <= self.pos,
                token_end(self.s@, self.pos as int) == token_end(old(self).src(), old(self).at()),
            decreases self.len - self.pos,
        {
            self.pos = self.pos + 1;
        }
        self.take_sub(start, self.pos)
    }

    /// One whitespace-delimited column: one or more spaces, then a maximal
    /// run of non-space characters (possibly empty at the end of the line),
    /// rejected when longer than `max`.
    pub fn token_max(&mut self, max: usize) -> (r: Result<String, RowError>)
        requires
            old(self).wf(),
        ensures
            final(self).wf(),
            final(self).src() == old(self).src(),
            r is Ok <==> sp_col_token(old(self).src(), old(self).at(), max as int) is Some,
            r matches Ok(t) ==> sp_col_token(old(self).src(), old(self).at(), max as int) == Some(
                (t@, final(self).at()),
            ) && t@.len() <= max,
    {
        self.space1()?;
        proof {
            lemma_token_end_bounds(self.s@, self.pos as int);
        }
        let start = self.pos;
        let t = self.take_run();
        if self.pos - start > max {
            return Err(RowError { pos: self.pos });
        }
        Ok(t)
    }

    /// Like `token_max`, but the column must not be empty.
    pub fn token1_max(&mut self, max: usize) -> (r: Result<String, RowError>)
        requires
            old(self).wf(),
        ensures
            final(self).wf(),
            final(self).src() == old(self).src(),
            r is Ok <==> sp_col_token1(old(self).src(), old(self).at(), max as int) is Some,
            r matches Ok(t) ==> sp_col_token1(old(self).src(), old(self).at(), max as int) == Some(
                (t@, final(self).at()),
            ) && 1 <= t@.len() <= max,
    {
        self.space1()?;
        proof {
            lemma_token_end_bounds(self.s@, self.pos as int);
        }
        let start = self.pos;
        let t = self.take_run();
        if self.pos == start || self.pos - start > max {
            return Err(RowError { pos: self.pos });
        }
        Ok(t)
    }

    /// Like `token1_max`, with any run of spaces (possibly none) before
    /// the column.
    pub fn token1_max0(&mut self, max: usize) -> (r: Result<String, RowError>)
        requires
            old(self).wf(),
        ensures
            final(self).wf(),
            final(self).src() == old(self).src(),
            r is Ok <==> sp_col_token1_0(old(self).src(), old(self).at(), max as int) is Some,
            r matches Ok(t) ==> sp_col_token1_0(old(self).src(), old(self).at(), max as int)
                == Some((t@, final(self).at())) && 1 <= t@.len() <= max,
    {
        self.skip_spaces();
        proof {
            lemma_token_end_bounds(self.s@, self.pos as int);
        }
        let start = self.pos;
        let t = self.take_run();
        if self.pos == start || self.pos - start > max {
            return Err(RowError { pos: self.pos });
        }
        Ok(t)
    }

    /// Like `token_max`, but the column must be exactly `n` characters wide.
    pub fn token_exact(&mut self, n: usize) -> (r: Result<String, RowError>)
        requires
            old(self).wf(),
        ensures
            final(self).wf(),
            final(self).src() == old(self).src(),
            r is Ok <==> sp_col_token_exact(old(self).src(), old(self).at(), n as int) is Some,
            r matches Ok(t) ==> sp_col_token_exact(old(self).src(), old(self).at(), n as int)
                == Some((t@, final(self).at())) && t@.len() == n,
    {
        self.space1()?;
        proof {
            lemma_token_end_bounds(self.s@, self.pos as int);
        }
        let start = self.pos;
        let t = self.take_run();
        if self.pos - start != n {
            return Err(RowError { pos: self.pos });
        }
        Ok(t)
    }

    /// One or more spaces, then everything up to the end of the line
    /// (spaces included).
    pub fn rest_after_spaces(&mut self) -> (r: Result<String, RowError>)
        requires
            old(self).wf(),
        ensures
            final(self).wf(),
            final(self).src() == old(self).src(),
            ({
                let s = old(self).src();
                let i = old(self).at();
                &&& (r is Ok <==> i < s.len() && is_space(s[i]))
                &&& (r matches Ok(t) ==> t@ == s.subrange(skip_spaces(s, i), s.len() as int)
                    && final(self).at() == s.len() && t@.len() == s.len() - skip_spaces(s, i))
            }),
    {
        self.space1()?;
        proof {
            lemma_skip_spaces_bounds(old(self).src(), old(self).at());
        }
        let start = self.pos;
        let r = self.take_sub(start, self.len);
        self.pos = self.len;
        Ok(r)
    }

    /// Match the literal `lit` exactly at the cursor.
    pub fn expect_lit(&mut self, lit: &str) -> (r: Result<(), RowError>)
        requires
            old(self).wf(),
        ensures
            final(self).wf(),
            final(self).src() == old(self).src(),
            ({
                let s = old(self).src();
                let i = old(self).at();
                let l = lit@.len() as int;
                &&& (r is Ok <==> i + l <= s.len() && s.subrange(i, i + l) =~= lit@)
                &&& (r is Ok ==> final(self).at() == i + l)
                &&& (r is Err ==> *final(self) == *old(self))
            }),
    {
        let l = lit.unicode_len();
        if self.len - self.pos < l {
            return Err(RowError { pos: self.pos });
        }
        let mut k: usize = 0;
        while k < l
            invariant
                self.wf(),
                *self == *old(self),
                l == lit@.len(),
                k <= l,
                self.at() + l <= self.src().len(),
                forall|j: int| 0 <= j < k ==> self.src()[self.at() + j] == lit@[j],
            decreases l - k,
        {
            if self.s.get_char(self.pos + k) != lit.get_char(k) {
                return Err(RowError { pos: self.pos + k });
            }
            k = k + 1;
        }
        assert(self.src().subrange(self.at(), self.at() + l as int) =~= lit@);
        self.pos = self.pos + l;
        Ok(())
    }

    /// Whether the character under the cursor is a decimal digit.
    fn cur_is_digit(&self) -> (r: bool)
        requires
            self.wf(),
            self.at() < self.src().len(),
        ensures
            r == is_digit(self.src()[self.at()]),
    {
        let c = self.s.get_char(self.pos);
        c >= '0' && c <= '9'
    }

    /// A maximal nonempty digit run at the cursor, as a `u64`.
    pub fn scan_u64(&mut self) -> (r: Result<u64, RowError>)
        requires
            old(self).wf(),
        ensures
            final(self).wf(),
            final(self).src() == old(self).src(),
            ({
                let s = old(self).src();
                let i = old(self).at();
                let de = digits_end(s, i);
                let run = s.subrange(i, de);
                &&& (r is Ok <==> de > i && digits_val(run) <= u64::MAX)
                &&& (r matches Ok(v) ==> v == digits_val(run) && final(self).at() == de)
            }),
    {
        proof {
            lemma_digits_end_bounds(self.s@, self.pos as int);
        }
        let ghost s = self.s@;
        let ghost de = digits_end(s, self.pos as int);
        let start = self.pos;
        let mut acc: u64 = 0;
        while self.pos < self.len && self.cur_is_digit()
            invariant
                self.wf(),
                self.s@ == s,
                s == old(self).src(),
                start == old(self).at(),
                start <= self.pos,
                de == digits_end(s, self.pos as int),
                de == digits_end(s, start as int),
                de <= s.len(),
                forall|j: int| start <= j < de ==> is_digit(#[trigger] s[j]),
                acc == digits_val(s.subrange(start as int, self.pos as int)),
            decreases self.len - self.pos,
        {
            let c = self.s.get_char(self.pos);
            let d: u64 = (c as u32 - '0' as u32) as u64;
            let wide: u128 = (acc as u128) * 10 + (d as u128);
            proof {
                let pre = s.subrange(start as int, self.pos as int);
                assert(s.subrange(start as int, self.pos as int + 1) =~= pre.push(s[self.pos as int]));
                lemma_digits_val_push(pre, s[self.pos as int]);
            }
            if wide > u64::MAX as u128 {
                proof {
                    lemma_digits_end_bounds(s, self.pos as int + 1);
                    assert(de == digits_end(s, self.pos as int + 1));
                    assert(de >= self.pos + 1);
                    let upto = s.subrange(start as int, self.pos as int + 1);
                    let tail = s.subrange(self.pos as int + 1, de);
                    assert(s.subrange(start as int, de) =~= upto + tail);
                    assert forall|j: int| 0 <= j < upto.len() implies is_digit(#[trigger] upto[j]) by {
                        assert(upto[j] == s[start + j]);
                    }
                    assert forall|j: int| 0 <= j < tail.len() implies is_digit(#[trigger] tail[j]) by {
                        assert(tail[j] == s[self.pos as int + 1 + j]);
                    }
                    lemma_digits_val_prefix_le(upto, tail);
                }
                return Err(RowError { pos: self.pos });
            }
            acc = wide as u64;
            self.pos = self.pos + 1;
        }
        if self.pos == start {
            return Err(RowError { pos: self.pos });
        }
        Ok(acc)
    }

    /// Like `scan_u64`, bounded by `u32`.
    pub fn scan_u32(&mut self) -> (r: Result<u32, RowError>)
        requires
            old(self).wf(),
        ensures
            final(self).wf(),
            final(self).src() == old(self).src(),
            ({
                let s = old(self).src();
                let i = old(self).at();
                let de = digits_end(s, i);
                let run = s.subrange(i, de);
                &&& (r is Ok <==> de > i && digits_val(run) <= u32::MAX)
                &&& (r matches Ok(v) ==> v == digits_val(run) && final(self).at() == de)
            }),
    {
        let p = self.pos;
        let v = self.scan_u64()?;
        if v > u32::MAX as u64 {
            return Err(RowError { pos: p });
        }
        Ok(v as u32)
    }

    /// Like `scan_u64`, bounded by `u16`.
    pub fn scan_u16(&mut self) -> (r: Result<u16, RowError>)
        requires
            old(self).wf(),
        ensures
            final(self).wf(),
            final(self).src() == old(self).src(),
            ({
                let s = old(self).src();
                let i = old(self).at();
                let de = digits_end(s, i);
                let run = s.subrange(i, de);
                &&& (r is Ok <==> de > i && digits_val(run) <= u16::MAX)
                &&& (r matches Ok(v) ==> v == digits_val(run) && final(self).at() == de)
            }),
    {
        let p = self.pos;
        let v = self.scan_u64()?;
        if v > u16::MAX as u64 {
            return Err(RowError { pos: p });
        }
        Ok(v as u16)
    }

    /// Like `scan_u64`, bounded by `u8`.
    pub fn scan_u8(&mut self) -> (r: Result<u8, RowError>)
        requires
            old(self).wf(),
        ensures
            final(self).wf(),
            final(self).src() == old(self).src(),
            ({
                let s = old(self).src();
                let i = old(self).at();
                let de = digits_end(s, i);
                let run = s.subrange(i, de);
                &&& (r is Ok <==> de > i && digits_val(run) <= u8::MAX)
                &&& (r matches Ok(v) ==> v == digits_val(run) && final(self).at() == de)
            }),
    {
        let p = self.pos;
        let v = self.scan_u64()?;
        if v > u8::MAX as u64 {
            return Err(RowError { pos: p });
        }
        Ok(v as u8)
    }

    /// An optionally signed digit run, as an `i64`.
    pub fn scan_i64(&mut self) -> (r: Result<i64, RowError>)
        requires
            old(self).wf(),
        ensures
            final(self).wf(),
            final(self).src() == old(self).src(),
            ({
                let s = old(self).src();
                let i = old(self).at();
                let (neg, j) = sign_at(s, i);
                let de = digits_end(s, j);
                let run = s.subrange(j, de);
                &&& (r is Ok <==> de > j && digits_val(run) <= i64::MAX)
                &&& (r matches Ok(v) ==> v == (if neg {
                    -digits_val(run)
                } else {
                    digits_val(run)
                }) && final(self).at() == de)
            }),
    {
        let mut neg = false;
        if self.pos < self.len {
            let c = self.s.get_char(self.pos);
            if c == '-' {
                neg = true;
                self.pos = self.pos + 1;
            } else if c == '+' {
                self.pos = self.pos + 1;
            }
        }
        let p = self.pos;
        let m = self.scan_u64()?;
        if m > i64::MAX as u64 {
            return Err(RowError { pos: p });
        }
        if neg {
            Ok(-(m as i64))
        } else {
            Ok(m as i64)
        }
    }

    /// An optionally signed digit run, within `i32`'s range.
    pub fn scan_i32(&mut self) -> (r: Result<i32, RowError>)
        requires
            old(self).wf(),
        ensures
            final(self).wf(),
            final(self).src() == old(self).src(),
            ({
                let s = old(self).src();
                let i = old(self).at();
                let (neg, j) = sign_at(s, i);
                let de = digits_end(s, j);
                let run = s.subrange(j, de);
                let v = if neg {
                    -digits_val(run)
                } else {
                    digits_val(run)
                };
                &&& (r is Ok <==> de > j && digits_val(run) <= i64::MAX && i32::MIN <= v
                    <= i32::MAX)
                &&& (r matches Ok(w) ==> w == v && final(self).at() == de)
            }),
    {
        let p = self.pos;
        let v = self.scan_i64()?;
        if v < i32::MIN as i64 || v > i32::MAX as i64 {
            return Err(RowError { pos: p });
        }
        Ok(v as i32)
    }

    /// An exact decimal number at the cursor; the cursor does not move on
    /// failure.
    pub fn scan_dec(&mut self) -> (r: Result<Dec, RowError>)
        requires
            old(self).wf(),
        ensures
            final(self).wf(),
            final(self).src() == old(self).src(),
            r is Ok <==> sp_dec(old(self).src(), old(self).at()) is Some,
            r matches Ok(d) ==> sp_dec(old(self).src(), old(self).at()) == Some(
                (d, final(self).at()),
            ) && d.wf(),
            r is Err ==> final(self).at() == old(self).at(),
    {
        let start = self.pos;
        match self.scan_dec_go() {
            Ok(d) => Ok(d),
            Err(e) => {
                self.pos = start;
                Err(e)
            },
        }
    }

    /// The decimal scan itself.
    fn scan_dec_go(&mut self) -> (r: Result<Dec, RowError>)
        requires
            old(self).wf(),
        ensures
            final(self).wf(),
            final(self).src() == old(self).src(),
            r is Ok <==> sp_dec(old(self).src(), old(self).at()) is Some,
            r matches Ok(d) ==> sp_dec(old(self).src(), old(self).at()) == Some(
                (d, final(self).at()),
            ) && d.wf(),
    {
        let ghost s = self.s@;
        let ghost i0 = self.at();
        let mut neg = false;
        if self.pos < self.len {
            let c = self.s.get_char(self.pos);
            if c == '-' {
                neg = true;
                self.pos = self.pos + 1;
            } else if c == '+' {
                self.pos = self.pos + 1;
            }
        }
        let ghost j = self.at();
        proof {
            assert(sign_at(s, i0) == (neg, j));
            lemma_digits_end_bounds(s, j);
        }
        let ghost de = digits_end(s, j);
        let vi = match self.scan_u64() {
            Ok(v) => v,
            Err(e) => {
                proof {
                    let intrun = s.subrange(j, de);
                    if de == j {
                        assert(sp_dec(s, i0) is None);
                    } else {
                        assert(digits_val(intrun) > u64::MAX);
                        if de < s.len() && s[de] == '.' {
                            let fe = digits_end(s, de + 1);
                            lemma_digits_end_bounds(s, de + 1);
                            if fe > de + 1 {
                                lemma_subrange_all_digits(s, j, de);
                                lemma_subrange_all_digits(s, de + 1, fe);
                                lemma_digits_val_prefix_le(intrun, s.subrange(de + 1, fe));
                                assert(digits_val(s.subrange(j, de) + s.subrange(de + 1, fe))
                                    > u64::MAX);
                                assert(sp_dec(s, i0) is None);
                            } else {
                                assert(sp_dec(s, i0) is None);
                            }
                        } else {
                            assert(sp_dec(s, i0) is None);
                        }
                    }
                    assert(sp_dec(s, i0) is None);
                }
                return Err(e);
            },
        };
        proof {
            lemma_subrange_all_digits(s, j, de);
            lemma_digits_val_nonneg(s.subrange(j, de));
        }
        if self.pos < self.len && self.cur_is_dot() {
            if self.pos + 1 < self.len && self.next_is_digit() {
                self.pos = self.pos + 1;
                proof {
                    lemma_digits_end_bounds(s, de + 1);
                }
                let ghost fe = digits_end(s, de + 1);
                let fracstart = self.pos;
                let ghost fracrun = s.subrange(de + 1, fe);
                let ghost intrun = s.subrange(j, de);
                let vf = match self.scan_u64() {
                    Ok(v) => v,
                    Err(e) => {
                        proof {
                            lemma_subrange_all_digits(s, de + 1, fe);
                            lemma_digits_val_nonneg(fracrun);
                            lemma_digits_val_concat(intrun, fracrun);
                            lemma_pow10_pos(fracrun.len());
                            assert(digits_val(intrun) * pow10(fracrun.len()) >= 0)
                                by (nonlinear_arith)
                                requires
                                    digits_val(intrun) >= 0,
                                    pow10(fracrun.len()) >= 1,
                            ;
                        }
                        return Err(e);
                    },
                };
                let fraclen = self.pos - fracstart;
                proof {
                    assert(fraclen == fe - (de + 1));
                }
                if fraclen > 19 {
                    return Err(RowError { pos: self.pos });
                }
                let p = pow10_u128(fraclen);
                proof {
                    lemma_pow10_pos(fraclen as nat);
                    lemma_pow10_mono(fraclen as nat, 19);
                    reveal_with_fuel(pow10, 20);
                    assert(pow10(19) == 10_000_000_000_000_000_000);
                    assert((vi as u128) * p <= 0xffff_ffff_ffff_ffffu128
                        * 10_000_000_000_000_000_000u128) by (nonlinear_arith)
                        requires
                            vi as u128 <= 0xffff_ffff_ffff_ffffu128,
                            1 <= p <= 10_000_000_000_000_000_000u128,
                    ;
                    assert((vi as u128) * p >= 0) by (nonlinear_arith)
                        requires
                            1 <= p,
                    ;
                }
                let wide: u128 = (vi as u128) * p + (vf as u128);
                proof {
                    lemma_digits_val_concat(intrun, fracrun);
                }
                if wide > u64::MAX as u128 {
                    return Err(RowError { pos: self.pos });
                }
                Ok(Dec { neg, mantissa: wide as u64, scale: fraclen as u8 })
            } else {
                Err(RowError { pos: self.pos })
            }
        } else {
            Ok(Dec { neg, mantissa: vi, scale: 0 })
        }
    }

    /// Whether the character under the cursor is a dot.
    fn cur_is_dot(&self) -> (r: bool)
        requires
            self.wf(),
            self.at() < self.src().len(),
        ensures
            r == (self.src()[self.at()] == '.'),
    {
        self.s.get_char(self.pos) == '.'
    }

    /// Whether the character after the cursor is a decimal digit.
    fn next_is_digit(&self) -> (r: bool)
        requires
            self.wf(),
            self.at() + 1 < self.src().len(),
        ensures
            r == is_digit(self.src()[self.at() + 1]),
    {
        let c = self.s.get_char(self.pos + 1);
        c >= '0' && c <= '9'
    }

    /// Exactly `n` characters at the cursor, all of which must be digits.
    pub fn scan_digits_exact(&mut self, n: usize) -> (r: Result<u64, RowError>)
        requires
            old(self).wf(),
            n <= 19,
        ensures
            final(self).wf(),
            final(self).src() == old(self).src(),
            ({
                let s = old(self).src();
                let i = old(self).at();
                &&& (r is Ok <==> i + n <= s.len() && all_digits(s.subrange(i, i + n)))
                &&& (r matches Ok(v) ==> v == digits_val(s.subrange(i, i + n))
                    && final(self).at() == i + n)
                &&& (r is Err ==> *final(self) == *old(self))
            }),
    {
        let ghost s = self.s@;
        let ghost i = self.at();
        if self.len - self.pos < n {
            return Err(RowError { pos: self.pos });
        }
        let mut acc: u64 = 0;
        let mut k: usize = 0;
        while k < n
            invariant
                self.wf(),
                *self == *old(self),
                s == self.s@,
                i == self.at(),
                k <= n <= 19,
                i + n <= s.len(),
                forall|j: int| i <= j < i + k ==> is_digit(#[trigger] s[j]),
                acc == digits_val(s.subrange(i, i + k)),
            decreases n - k,
        {
            let c = self.s.get_char(self.pos + k);
            if !(c >= '0' && c <= '9') {
                proof {
                    assert(s.subrange(i, i + n as int)[k as int] == s[i + k]);
                }
                return Err(RowError { pos: self.pos + k });
            }
            let d: u64 = (c as u32 - '0' as u32) as u64;
            proof {
                let pre = s.subrange(i, i + k);
                assert(s.subrange(i, i + k + 1) =~= pre.push(s[i + k]));
                lemma_digits_val_push(pre, s[i + k]);
                lemma_subrange_all_digits(s, i, i + k);
                lemma_digits_val_bound(pre);
                lemma_pow10_mono(k as nat, 18);
                reveal_with_fuel(pow10, 20);
                assert(pow10(18) == 1_000_000_000_000_000_000);
            }
            acc = acc * 10 + d;
            k = k + 1;
        }
        proof {
            lemma_subrange_all_digits(s, i, i + n as int);
        }
        self.pos = self.pos + n;
        Ok(acc)
    }

    /// Everything from the cursor up to (not including) the first `stop`
    /// character; there must be such a character.
    pub fn take_until(&mut self, stop: char) -> (r: Result<String, RowError>)
        requires
            old(self).wf(),
        ensures
            final(self).wf(),
            final(self).src() == old(self).src(),
            ({
                let s = old(self).src();
                let i = old(self).at();
                let e = find_char(s, i, stop);
                &&& (r is Ok <==> e < s.len())
                &&& (r matches Ok(t) ==> t@ == s.subrange(i, e) && final(self).at() == e)
            }),
    {
        proof {
            lemma_find_char_bounds(self.s@, self.pos as int, stop);
        }
        let start = self.pos;
        while self.pos < self.len && !self.cur_is(stop)
            invariant
                self.wf(),
                self.s@ == old(self).src(),
                start <= self.pos,
                find_char(self.s@, self.pos as int, stop) == find_char(
                    old(self).src(),
                    old(self).at(),
                    stop,
                ),
            decreases self.len - self.pos,
        {
            self.pos = self.pos + 1;
        }
        if self.pos == self.len {
            return Err(RowError { pos: self.pos });
        }
        Ok(self.take_sub(start, self.pos))
    }

    /// Whether the character under the cursor is `c`.
    fn cur_is(&self, c: char) -> (r: bool)
        requires
            self.wf(),
            self.at() < self.src().len(),
        ensures
            r == (self.src()[self.at()] == c),
    {
        self.s.get_char(self.pos) == c
    }

    /// Everything from the cursor to the end of the line.
    pub fn take_rest(&mut self) -> (r: String)
        requires
            old(self).wf(),
        ensures
            final(self).wf(),
            final(self).src() == old(self).src(),
            final(self).at() == old(self).src().len(),
            r@ == old(self).src().subrange(old(self).at(), old(self).src().len() as int),
    {
        let start = self.pos;
        let r = self.take_sub(start, self.len);
        self.pos = self.len;
        r
    }

    /// Consume and return the character at the cursor.
    pub fn take_char(&mut self) -> (r: Result<char, RowError>)
        requires
            old(self).wf(),
        ensures
            final(self).wf(),
            final(self).src() == old(self).src(),
            r is Ok <==> old(self).at() < old(self).src().len(),
            r matches Ok(c) ==> c == old(self).src()[old(self).at()] && final(self).at() == old(
                self,
            ).at() + 1,
            r is Err ==> *final(self) == *old(self),
    {
        if self.pos < self.len {
            let c = self.s.get_char(self.pos);
            self.pos = self.pos + 1;
            Ok(c)
        } else {
            Err(RowError { pos: self.pos })
        }
    }

    /// One decimal-number column after at least one space.
    pub fn col_dec(&mut self) -> (r: Result<Dec, RowError>)
        requires
            old(self).wf(),
        ensures
            final(self).wf(),
            final(self).src() == old(self).src(),
            r is Ok <==> sp_col_dec(old(self).src(), old(self).at()) is Some,
            r matches Ok(d) ==> sp_col_dec(old(self).src(), old(self).at()) == Some(
                (d, final(self).at()),
            ) && d.wf(),
    {
        self.space1()?;
        self.scan_dec()
    }

    /// One decimal-number column after any run of spaces.
    pub fn col_dec0(&mut self) -> (r: Result<Dec, RowError>)
        requires
            old(self).wf(),
        ensures
            final(self).wf(),
            final(self).src() == old(self).src(),
            r is Ok <==> sp_col_dec0(old(self).src(), old(self).at()) is Some,
            r matches Ok(d) ==> sp_col_dec0(old(self).src(), old(self).at()) == Some(
                (d, final(self).at()),
            ) && d.wf(),
    {
        self.skip_spaces();
        self.scan_dec()
    }

    /// One unsigned-integer column after at least one space, as a `u64`.
    pub fn col_u64(&mut self) -> (r: Result<u64, RowError>)
        requires
            old(self).wf(),
        ensures
            final(self).wf(),
            final(self).src() == old(self).src(),
            r is Ok <==> sp_col_uint(old(self).src(), old(self).at(), u64::MAX as int) is Some,
            r matches Ok(v) ==> sp_col_uint(old(self).src(), old(self).at(), u64::MAX as int)
                == Some((v as int, final(self).at())),
    {
        self.space1()?;
        self.scan_u64()
    }

    /// One unsigned-integer column after at least one space, as a `u32`.
    pub fn col_u32(&mut self) -> (r: Result<u32, RowError>)
        requires
            old(self).wf(),
        ensures
            final(self).wf(),
            final(self).src() == old(self).src(),
            r is Ok <==> sp_col_uint(old(self).src(), old(self).at(), u32::MAX as int) is Some,
            r matches Ok(v) ==> sp_col_uint(old(self).src(), old(self).at(), u32::MAX as int)
                == Some((v as int, final(self).at())),
    {
        self.space1()?;
        self.scan_u32()
    }

    /// One unsigned-integer column after at least one space, as a `u16`.
    pub fn col_u16(&mut self) -> (r: Result<u16, RowError>)
        requires
            old(self).wf(),
        ensures
            final(self).wf(),
            final(self).src() == old(self).src(),
            r is Ok <==> sp_col_uint(old(self).src(), old(self).at(), u16::MAX as int) is Some,
            r matches Ok(v) ==> sp_col_uint(old(self).src(), old(self).at(), u16::MAX as int)
                == Some((v as int, final(self).at())),
    {
        self.space1()?;
        self.scan_u16()
    }

    /// One unsigned-integer column after at least one space, as a `u8`.
    pub fn col_u8(&mut self) -> (r: Result<u8, RowError>)
        requires
            old(self).wf(),
        ensures
            final(self).wf(),
            final(self).src() == old(self).src(),
            r is Ok <==> sp_col_uint(old(self).src(), old(self).at(), u8::MAX as int) is Some,
            r matches Ok(v) ==> sp_col_uint(old(self).src(), old(self).at(), u8::MAX as int)
                == Some((v as int, final(self).at())),
    {
        self.space1()?;
        self.scan_u8()
    }

    /// One unsigned-integer column after any run of spaces, as a `u8`.
    pub fn col_u8_0(&mut self) -> (r: Result<u8, RowError>)
        requires
            old(self).wf(),
        ensures
            final(self).wf(),
            final(self).src() == old(self).src(),
            r is Ok <==> sp_col_uint0(old(self).src(), old(self).at(), u8::MAX as int) is Some,
            r matches Ok(v) ==> sp_col_uint0(old(self).src(), old(self).at(), u8::MAX as int)
                == Some((v as int, final(self).at())),
    {
        self.skip_spaces();
        self.scan_u8()
    }

    /// One signed-integer column after at least one space, as an `i32`.
    pub fn col_i32(&mut self) -> (r: Result<i32, RowError>)
        requires
            old(self).wf(),
        ensures
            final(self).wf(),
            final(self).src() == old(self).src(),
            r is Ok <==> sp_col_int(old(self).src(), old(self).at(), i32::MIN as int, i32::MAX as int) is Some,
            r matches Ok(v) ==> sp_col_int(old(self).src(), old(self).at(), i32::MIN as int, i32::MAX as int)
                == Some((v as int, final(self).at())),
    {
        self.space1()?;
        self.scan_i32()
    }

    /// One decimal-number column after at least one space, running to the
    /// end of its token.
    pub fn col_dec_tok(&mut self) -> (r: Result<Dec, RowError>)
        requires
            old(self).wf(),
        ensures
            final(self).wf(),
            final(self).src() == old(self).src(),
            r is Ok <==> sp_col_dec_end(old(self).src(), old(self).at()) is Some,
            r matches Ok(d) ==> sp_col_dec_end(old(self).src(), old(self).at()) == Some(
                (d, final(self).at()),
            ) && d.wf(),
    {
        let d = self.col_dec()?;
        if self.at_end() || self.cur_is_space() {
            Ok(d)
        } else {
            Err(RowError { pos: self.pos })
        }
    }

    /// One column of digits after at least one space, ignored.
    pub fn col_digits_skip(&mut self) -> (r: Result<(), RowError>)
        requires
            old(self).wf(),
        ensures
            final(self).wf(),
            final(self).src() == old(self).src(),
            ({
                let s = old(self).src();
                let i = old(self).at();
                let j = skip_spaces(s, i);
                let de = digits_end(s, j);
                &&& (r is Ok <==> i < s.len() && is_space(s[i]) && de > j)
                &&& (r is Ok ==> final(self).at() == de)
            }),
    {
        self.space1()?;
        proof {
            lemma_digits_end_bounds(self.s@, self.pos as int);
        }
        let start = self.pos;
        while self.pos < self.len && self.cur_is_digit()
            invariant
                self.wf(),
                self.s@ == old(self).src(),
                start <= self.pos,
                digits_end(self.s@, self.pos as int) == digits_end(
                    self.s@,
                    start as int,
                ),
            decreases self.len - self.pos,
        {
            self.pos = self.pos + 1;
        }
        if self.pos == start {
            return Err(RowError { pos: self.pos });
        }
        Ok(())
    }

    /// The maximal run at the cursor containing neither whitespace nor
    /// `stop`.
    pub fn take_till_space_or(&mut self, stop: char) -> (r: String)
        requires
            old(self).wf(),
        ensures
            final(self).wf(),
            final(self).src() == old(self).src(),
            final(self).at() == break_end(old(self).src(), old(self).at(), stop),
            r@ == old(self).src().subrange(old(self).at(), final(self).at()),
            r@.len() == final(self).at() - old(self).at(),
    {
        proof {
            lemma_break_end_bounds(self.s@, self.pos as int, stop);
        }
        let start = self.pos;
        while self.pos < self.len && !self.cur_is_space() && !self.cur_is(stop)
            invariant
                self.wf(),
                self.s@ == old(self).src(),
                start <= self.pos,
                break_end(self.s@, self.pos as int, stop) == break_end(
                    old(self).src(),
                    old(self).at(),
                    stop,
                ),
            decreases self.len - self.pos,
        {
            self.pos = self.pos + 1;
        }
        self.take_sub(start, self.pos)
    }

    /// Whether the character under the cursor is `c`.
    pub fn peek_is(&self, c: char) -> (r: bool)
        requires
            self.wf(),
            self.at() < self.src().len(),
        ensures
            r == (self.src()[self.at()] == c),
    {
        self.s.get_char(self.pos) == c
    }

    /// One comma-closed field of at most `max` characters; the comma is
    /// consumed.
    pub fn field_comma_max(&mut self, max: usize) -> (r: Result<String, RowError>)
        requires
            old(self).wf(),
        ensures
            final(self).wf(),
            final(self).src() == old(self).src(),
            r is Ok <==> sp_field_comma(old(self).src(), old(self).at(), max as int) is Some,
            r matches Ok(t) ==> sp_field_comma(old(self).src(), old(self).at(), max as int)
                == Some((t@, final(self).at())) && t@.len() <= max,
    {
        proof {
            lemma_find_char_bounds(self.s@, self.pos as int, ',');
        }
        let start = self.pos;
        let t = self.take_until(',')?;
        if self.pos - start > max {
            return Err(RowError { pos: self.pos });
        }
        self.bump();
        Ok(t)
    }

    /// One comma-closed field of exactly `n` characters; the comma is
    /// consumed.
    pub fn field_comma_exact(&mut self, n: usize) -> (r: Result<String, RowError>)
        requires
            old(self).wf(),
        ensures
            final(self).wf(),
            final(self).src() == old(self).src(),
            r is Ok <==> sp_field_comma_exact(old(self).src(), old(self).at(), n as int) is Some,
            r matches Ok(t) ==> sp_field_comma_exact(old(self).src(), old(self).at(), n as int)
                == Some((t@, final(self).at())) && t@.len() == n,
    {
        proof {
            lemma_find_char_bounds(self.s@, self.pos as int, ',');
        }
        let start = self.pos;
        let t = self.take_until(',')?;
        if self.pos - start != n {
            return Err(RowError { pos: self.pos });
        }
        self.bump();
        Ok(t)
    }

    /// Any spaces, then an expected character, consumed.
    pub fn spaces_then(&mut self, c: char) -> (r: Result<(), RowError>)
        requires
            old(self).wf(),
        ensures
            final(self).wf(),
            final(self).src() == old(self).src(),
            ({
                let s = old(self).src();
                let j = skip_spaces(s, old(self).at());
                &&& (r is Ok <==> j < s.len() && s[j] == c)
                &&& (r is Ok ==> final(self).at() == j + 1)
            }),
    {
        self.skip_spaces();
        if self.pos < self.len && self.cur_is(c) {
            self.bump();
            Ok(())
        } else {
            Err(RowError { pos: self.pos })
        }
    }

    /// An optional single-character field closed by `sep`.
    pub fn opt_char_sep(&mut self, sep: char) -> (r: Result<Option<char>, RowError>)
        requires
            old(self).wf(),
        ensures
            final(self).wf(),
            final(self).src() == old(self).src(),
            r is Ok <==> sp_opt_char_sep(old(self).src(), old(self).at(), sep) is Some,
            r matches Ok(c) ==> sp_opt_char_sep(old(self).src(), old(self).at(), sep) == Some(
                (c, final(self).at()),
            ),
    {
        let mut out: Option<char> = None;
        if self.pos < self.len && !self.cur_is_space() && !self.cur_is(',') {
            let c = self.s.get_char(self.pos);
            self.pos = self.pos + 1;
            out = Some(c);
        }
        self.spaces_then(sep)?;
        Ok(out)
    }

    /// An optional unsigned-number field closed by `sep`, as a `u32`.
    pub fn opt_u32_sep(&mut self, sep: char) -> (r: Result<Option<u32>, RowError>)
        requires
            old(self).wf(),
        ensures
            final(self).wf(),
            final(self).src() == old(self).src(),
            r is Ok <==> sp_opt_uint_sep(old(self).src(), old(self).at(), u32::MAX as int, sep)
                is Some,
            r matches Ok(c) ==> sp_opt_uint_sep(
                old(self).src(),
                old(self).at(),
                u32::MAX as int,
                sep,
            ) == Some(
                (
                    match c {
                        Some(v) => Some(v as int),
                        None => None,
                    },
                    final(self).at(),
                ),
            ),
    {
        proof {
            lemma_digits_end_bounds(self.s@, self.pos as int);
        }
        let mut out: Option<u32> = None;
        if self.pos < self.len && self.cur_is_digit() {
            let v = self.scan_u64()?;
            if v > u32::MAX as u64 {
                return Err(RowError { pos: self.pos });
            }
            out = Some(v as u32);
        }
        self.spaces_then(sep)?;
        Ok(out)
    }

    /// An optional unsigned-number field closed by `sep`, as a `u16`.
    pub fn opt_u16_sep(&mut self, sep: char) -> (r: Result<Option<u16>, RowError>)
        requires
            old(self).wf(),
        ensures
            final(self).wf(),
            final(self).src() == old(self).src(),
            r is Ok <==> sp_opt_uint_sep(old(self).src(), old(self).at(), u16::MAX as int, sep)
                is Some,
            r matches Ok(c) ==> sp_opt_uint_sep(
                old(self).src(),
                old(self).at(),
                u16::MAX as int,
                sep,
            ) == Some(
                (
                    match c {
                        Some(v) => Some(v as int),
                        None => None,
                    },
                    final(self).at(),
                ),
            ),
    {
        proof {
            lemma_digits_end_bounds(self.s@, self.pos as int);
        }
        let mut out: Option<u16> = None;
        if self.pos < self.len && self.cur_is_digit() {
            let v = self.scan_u64()?;
            if v > u16::MAX as u64 {
                return Err(RowError { pos: self.pos });
            }
            out = Some(v as u16);
        }
        self.spaces_then(sep)?;
        Ok(out)
    }

    /// An optional unsigned-number field closed by `sep`, as a `u8`.
    pub fn opt_u8_sep(&mut self, sep: char) -> (r: Result<Option<u8>, RowError>)
        requires
            old(self).wf(),
        ensures
            final(self).wf(),
            final(self).src() == old(self).src(),
            r is Ok <==> sp_opt_uint_sep(old(self).src(), old(self).at(), u8::MAX as int, sep)
                is Some,
            r matches Ok(c) ==> sp_opt_uint_sep(
                old(self).src(),
                old(self).at(),
                u8::MAX as int,
                sep,
            ) == Some(
                (
                    match c {
                        Some(v) => Some(v as int),
                        None => None,
                    },
                    final(self).at(),
                ),
            ),
    {
        proof {
            lemma_digits_end_bounds(self.s@, self.pos as int);
        }
        let mut out: Option<u8> = None;
        if self.pos < self.len && self.cur_is_digit() {
            let v = self.scan_u64()?;
            if v > u8::MAX as u64 {
                return Err(RowError { pos: self.pos });
            }
            out = Some(v as u8);
        }
        self.spaces_then(sep)?;
        Ok(out)
    }

    /// An optional signed-number field closed by `sep`, within
    /// `[min, max]`.
    pub fn opt_i64_sep(&mut self, min: i64, max: i64, sep: char) -> (r: Result<
        Option<i64>,
        RowError,
    >)
        requires
            old(self).wf(),
            sep != '-' && sep != '+',
        ensures
            final(self).wf(),
            final(self).src() == old(self).src(),
            r is Ok <==> sp_opt_int_sep(
                old(self).src(),
                old(self).at(),
                min as int,
                max as int,
                sep,
            ) is Some,
            r matches Ok(c) ==> sp_opt_int_sep(
                old(self).src(),
                old(self).at(),
                min as int,
                max as int,
                sep,
            ) == Some(
                (
                    match c {
                        Some(v) => Some(v as int),
                        None => None,
                    },
                    final(self).at(),
                ),
            ),
    {
        proof {
            lemma_digits_end_bounds(self.s@, self.pos as int);
            if self.at() + 1 <= self.src().len() {
                lemma_digits_end_bounds(self.s@, self.pos as int + 1);
            }
        }
        let mut out: Option<i64> = None;
        let has_num = if self.pos < self.len {
            if self.cur_is_digit() {
                true
            } else if (self.cur_is('-') || self.cur_is('+')) && self.pos + 1 < self.len
                && self.next_is_digit() {
                true
            } else {
                false
            }
        } else {
            false
        };
        if has_num {
            let v = self.scan_i64()?;
            if v < min || v > max {
                return Err(RowError { pos: self.pos });
            }
            out = Some(v);
        } else {
            if self.pos < self.len && (self.cur_is('-') || self.cur_is('+')) {
                return Err(RowError { pos: self.pos });
            }
        }
        self.spaces_then(sep)?;
        Ok(out)
    }

    /// An optional decimal field closed by `sep`.
    pub fn opt_dec_sep(&mut self, sep: char) -> (r: Result<Option<Dec>, RowError>)
        requires
            old(self).wf(),
        ensures
            final(self).wf(),
            final(self).src() == old(self).src(),
            r is Ok <==> sp_opt_dec_sep(old(self).src(), old(self).at(), sep) is Some,
            r matches Ok(c) ==> sp_opt_dec_sep(old(self).src(), old(self).at(), sep) == Some(
                (c, final(self).at()),
            ) && (c matches Some(d) ==> d.wf()),
    {
        let mut out: Option<Dec> = None;
        match self.scan_dec() {
            Ok(d) => {
                out = Some(d);
            },
            Err(_) => {},
        }
        self.spaces_then(sep)?;
        Ok(out)
    }

    /// A required unsigned-number field closed by `sep`, as a `u16`.
    pub fn req_u16_sep(&mut self, sep: char) -> (r: Result<u16, RowError>)
        requires
            old(self).wf(),
        ensures
            final(self).wf(),
            final(self).src() == old(self).src(),
            ({
                let s = old(self).src();
                let i = old(self).at();
                let de = digits_end(s, i);
                let run = s.subrange(i, de);
                let j = skip_spaces(s, de);
                &&& (r is Ok <==> de > i && digits_val(run) <= u16::MAX && j < s.len() && s[j]
                    == sep)
                &&& (r matches Ok(v) ==> v == digits_val(run) && final(self).at() == j + 1)
            }),
    {
        let v = self.scan_u16()?;
        self.spaces_then(sep)?;
        Ok(v)
    }

    /// A required signed-number field closed by `sep`, within
    /// `[min, max]`.
    pub fn req_i64_sep(&mut self, min: i64, max: i64, sep: char) -> (r: Result<i64, RowError>)
        requires
            old(self).wf(),
        ensures
            final(self).wf(),
            final(self).src() == old(self).src(),
            ({
                let s = old(self).src();
                let i = old(self).at();
                let (neg, j0) = sign_at(s, i);
                let de = digits_end(s, j0);
                let run = s.subrange(j0, de);
                let v = if neg {
                    -digits_val(run)
                } else {
                    digits_val(run)
                };
                let j = skip_spaces(s, de);
                &&& (r is Ok <==> de > j0 && digits_val(run) <= i64::MAX && min <= v <= max && j
                    < s.len() && s[j] == sep)
                &&& (r matches Ok(w) ==> w == v && final(self).at() == j + 1)
            }),
    {
        let v = self.scan_i64()?;
        if v < min || v > max {
            return Err(RowError { pos: self.pos });
        }
        self.spaces_then(sep)?;
        Ok(v)
    }

    /// Step over exactly one character.    /// Step over exactly one character.
    pub fn bump(&mut self)
        requires
            old(self).wf(),
            old(self).at() < old(self).src().len(),
        ensures
            final(self).wf(),
            final(self).src() == old(self).src(),
            final(self).at() == old(self).at() + 1,
    {
        self.pos = self.pos + 1;
    }

    /// One single-character column after at least one space.
    pub fn col_char(&mut self) -> (r: Result<char, RowError>)
        requires
            old(self).wf(),
        ensures
            final(self).wf(),
            final(self).src() == old(self).src(),
            r is Ok <==> sp_col_char(old(self).src(), old(self).at()) is Some,
            r matches Ok(c) ==> sp_col_char(old(self).src(), old(self).at()) == Some(
                (c, final(self).at()),
            ),
    {
        self.space1()?;
        self.take_char()
    }
}

/// One decimal-number column preceded by at least one space.
pub open spec fn sp_col_dec(s: Seq<char>, i: int) -> Option<(Dec, int)> {
    if i < s.len() && is_space(s[i]) {
        sp_dec(s, skip_spaces(s, i))
    } else {
        None
    }
}

/// One decimal-number column preceded by any run of spaces.
pub open spec fn sp_col_dec0(s: Seq<char>, i: int) -> Option<(Dec, int)> {
    sp_dec(s, skip_spaces(s, i))
}

/// One unsigned-integer column preceded by at least one space, bounded by
/// `max`.
pub open spec fn sp_col_uint(s: Seq<char>, i: int, max: int) -> Option<(int, int)> {
    if i < s.len() && is_space(s[i]) {
        sp_col_uint0(s, i, max)
    } else {
        None
    }
}

/// One unsigned-integer column preceded by any run of spaces.
pub open spec fn sp_col_uint0(s: Seq<char>, i: int, max: int) -> Option<(int, int)> {
    let j = skip_spaces(s, i);
    let de = digits_end(s, j);
    let v = digits_val(s.subrange(j, de));
    if de > j && v <= max {
        Some((v, de))
    } else {
        None
    }
}

/// One signed-integer column preceded by at least one space, within
/// `[min, max]`.
pub open spec fn sp_col_int(s: Seq<char>, i: int, min: int, max: int) -> Option<(int, int)> {
    if i < s.len() && is_space(s[i]) {
        let (neg, j) = sign_at(s, skip_spaces(s, i));
        let de = digits_end(s, j);
        let m = digits_val(s.subrange(j, de));
        let v = if neg {
            -m
        } else {
            m
        };
        if de > j && m <= i64::MAX && min <= v <= max {
            Some((v, de))
        } else {
            None
        }
    } else {
        None
    }
}

/// One whitespace-delimited string column: at least one space, then a
/// maximal (possibly empty) run of at most `max` non-space characters.
pub open spec fn sp_col_token(s: Seq<char>, i: int, max: int) -> Option<(Seq<char>, int)> {
    if i < s.len() && is_space(s[i]) {
        let j = skip_spaces(s, i);
        let e = token_end(s, j);
        if e - j <= max {
            Some((s.subrange(j, e), e))
        } else {
            None
        }
    } else {
        None
    }
}

/// As `sp_col_token`, with the run nonempty.
pub open spec fn sp_col_token1(s: Seq<char>, i: int, max: int) -> Option<(Seq<char>, int)> {
    if i < s.len() && is_space(s[i]) {
        let j = skip_spaces(s, i);
        let e = token_end(s, j);
        if 1 <= e - j <= max {
            Some((s.subrange(j, e), e))
        } else {
            None
        }
    } else {
        None
    }
}

/// As `sp_col_token1`, with any run of spaces (possibly none) before the
/// column.
pub open spec fn sp_col_token1_0(s: Seq<char>, i: int, max: int) -> Option<(Seq<char>, int)> {
    let j = skip_spaces(s, i);
    let e = token_end(s, j);
    if 1 <= e - j <= max {
        Some((s.subrange(j, e), e))
    } else {
        None
    }
}

/// As `sp_col_token`, with the run exactly `n` characters wide.
pub open spec fn sp_col_token_exact(s: Seq<char>, i: int, n: int) -> Option<(Seq<char>, int)> {
    if i < s.len() && is_space(s[i]) {
        let j = skip_spaces(s, i);
        let e = token_end(s, j);
        if e - j == n {
            Some((s.subrange(j, e), e))
        } else {
            None
        }
    } else {
        None
    }
}

/// One decimal-number column after at least one space which must run to
/// the end of its whitespace-delimited token.
pub open spec fn sp_col_dec_end(s: Seq<char>, i: int) -> Option<(Dec, int)> {
    match sp_col_dec(s, i) {
        Some((d, e)) => {
            if e == s.len() || is_space(s[e]) {
                Some((d, e))
            } else {
                None
            }
        },
        None => None,
    }
}

/// One single-character column preceded by at least one space.
pub open spec fn sp_col_char(s: Seq<char>, i: int) -> Option<(char, int)> {
    if i < s.len() && is_space(s[i]) {
        let j = skip_spaces(s, i);
        if j < s.len() {
            Some((s[j], j + 1))
        } else {
            None
        }
    } else {
        None
    }
}

/// First position at or after `i` holding a space, the `stop` character, or
/// the end: the end of a run that both whitespace and `stop` delimit.
pub open spec fn break_end(s: Seq<char>, i: int, stop: char) -> int
    recommends
        0 <= i <= s.len(),
    decreases s.len() - i when 0 <= i <= s.len()
{
    if i < s.len() && !is_space(s[i]) && s[i] != stop {
        break_end(s, i + 1, stop)
    } else {
        i
    }
}

pub proof fn lemma_break_end_bounds(s: Seq<char>, i: int, stop: char)
    requires
        0 <= i <= s.len(),
    ensures
        i <= break_end(s, i, stop) <= s.len(),
    decreases s.len() - i,
{
    if i < s.len() && !is_space(s[i]) && s[i] != stop {
        lemma_break_end_bounds(s, i + 1, stop);
    }
}

/// Whether a field holds only whitespace.
pub open spec fn all_spaces(s: Seq<char>) -> bool {
    forall|j: int| 0 <= j < s.len() ==> is_space(#[trigger] s[j])
}

/// One comma-closed field of at most `max` characters: the text before
/// the next comma, and the position after that comma.
pub open spec fn sp_field_comma(s: Seq<char>, i: int, max: int) -> Option<(Seq<char>, int)> {
    let fd = find_char(s, i, ',');
    if fd < s.len() && fd - i <= max {
        Some((s.subrange(i, fd), fd + 1))
    } else {
        None
    }
}

/// One comma-closed field of exactly `n` characters.
pub open spec fn sp_field_comma_exact(s: Seq<char>, i: int, n: int) -> Option<(Seq<char>, int)> {
    let fd = find_char(s, i, ',');
    if fd < s.len() && fd - i == n {
        Some((s.subrange(i, fd), fd + 1))
    } else {
        None
    }
}

/// An optional single-character field: one character that is neither a
/// space nor a comma, then any spaces, then the comma.
pub open spec fn sp_opt_char_sep(s: Seq<char>, i: int, sep: char) -> Option<(Option<char>, int)> {
    if i < s.len() && !is_space(s[i]) && s[i] != ',' {
        let j = skip_spaces(s, i + 1);
        if j < s.len() && s[j] == sep {
            Some((Some(s[i]), j + 1))
        } else {
            None
        }
    } else {
        let j = skip_spaces(s, i);
        if j < s.len() && s[j] == sep {
            Some((None, j + 1))
        } else {
            None
        }
    }
}

/// An optional unsigned-number field: digits right at the cursor, or
/// nothing; then any spaces and the comma.
pub open spec fn sp_opt_uint_sep(s: Seq<char>, i: int, max: int, sep: char) -> Option<(Option<int>, int)> {
    let de = digits_end(s, i);
    if de > i {
        let v = digits_val(s.subrange(i, de));
        let j = skip_spaces(s, de);
        if v <= max && j < s.len() && s[j] == sep {
            Some((Some(v), j + 1))
        } else {
            None
        }
    } else {
        let j = skip_spaces(s, i);
        if j < s.len() && s[j] == sep {
            Some((None, j + 1))
        } else {
            None
        }
    }
}

/// An optional signed-number field, within `[min, max]`.
pub open spec fn sp_opt_int_sep(s: Seq<char>, i: int, min: int, max: int, sep: char) -> Option<
    (Option<int>, int),
> {
    let (neg, j0) = sign_at(s, i);
    let de = digits_end(s, j0);
    if de > j0 {
        let m = digits_val(s.subrange(j0, de));
        let v = if neg {
            -m
        } else {
            m
        };
        let j = skip_spaces(s, de);
        if m <= i64::MAX && min <= v <= max && j < s.len() && s[j] == sep {
            Some((Some(v), j + 1))
        } else {
            None
        }
    } else {
        let j = skip_spaces(s, i);
        if j < s.len() && s[j] == sep {
            Some((None, j + 1))
        } else {
            None
        }
    }
}

/// An optional decimal field: a decimal number right at the cursor, or
/// nothing; then any spaces and the comma.
pub open spec fn sp_opt_dec_sep(s: Seq<char>, i: int, sep: char) -> Option<(Option<Dec>, int)> {
    match sp_dec(s, i) {
        Some((d, e)) => {
            let j = skip_spaces(s, e);
            if j < s.len() && s[j] == sep {
                Some((Some(d), j + 1))
            } else {
                None
            }
        },
        None => {
            let j = skip_spaces(s, i);
            if j < s.len() && s[j] == sep {
                Some((None, j + 1))
            } else {
                None
            }
        },
    }
}

/// Whether a string holds only whitespace.
pub fn span_all_spaces(t: &str) -> (r: bool)
    ensures
        r == all_spaces(t@),
{
    let l = t.unicode_len();
    let mut k: usize = 0;
    while k < l
        invariant
            k <= l,
            l == t@.len(),
            forall|j: int| 0 <= j < k ==> is_space(#[trigger] t@[j]),
        decreases l - k,
    {
        let c = t.get_char(k);
        if !(c == ' ' || c == '\t') {
            return false;
        }
        k = k + 1;
    }
    true
}

/// A line with a trailing carriage return removed.
pub open spec fn strip_cr(l: Seq<char>) -> Seq<char> {
    if l.len() > 0 && l.last() == '\r' {
        l.drop_last()
    } else {
        l
    }
}

/// The lines of the text from position `i` on: split at every line feed,
/// with a carriage return before the line feed dropped, and no empty last
/// line for text ending in a line feed.
pub open spec fn spec_lines_from(s: Seq<char>, i: int) -> Seq<Seq<char>>
    recommends
        0 <= i,
    decreases s.len() + 1 - i when 0 <= i via spec_lines_from_decreases
{
    if i >= s.len() {
        Seq::empty()
    } else {
        let e = find_char(s, i, '\n');
        seq![strip_cr(s.subrange(i, e))] + spec_lines_from(s, e + 1)
    }
}

#[via_fn]
proof fn spec_lines_from_decreases(s: Seq<char>, i: int) {
    if 0 <= i < s.len() {
        lemma_find_char_bounds(s, i, '\n');
    }
}

/// The lines of a whole file.
pub open spec fn spec_lines(s: Seq<char>) -> Seq<Seq<char>> {
    spec_lines_from(s, 0)
}

/// Split a file's text into lines, as a buffered reader's line iterator
/// does: at every line feed, dropping a carriage return directly before it.
pub fn split_lines(text: &str) -> (r: Vec<String>)
    ensures
        r@.len() == spec_lines(text@).len(),
        forall|k: int| 0 <= k < r@.len() ==> r@[k]@ == spec_lines(text@)[k],
{
    let ghost s = text@;
    let len = text.unicode_len();
    let mut r: Vec<String> = Vec::new();
    let mut pos: usize = 0;
    while pos < len
        invariant
            s == text@,
            len == s.len(),
            pos <= len,
            spec_lines(s) =~= r@.map_values(|l: String| l@) + spec_lines_from(s, pos as int),
        decreases len - pos,
    {
        proof {
            lemma_find_char_bounds(s, pos as int, '\n');
        }
        let mut e = pos;
        while e < len && text.get_char(e) != '\n'
            invariant
                s == text@,
                len == s.len(),
                pos <= e <= len,
                find_char(s, e as int, '\n') == find_char(s, pos as int, '\n'),
            decreases len - e,
        {
            e = e + 1;
        }
        proof {
            assert(find_char(s, pos as int, '\n') == e as int);
        }
        let mut stop = e;
        if e > pos && text.get_char(e - 1) == '\r' {
            stop = e - 1;
        }
        let line = String::from_str(text.substring_char(pos, stop));
        proof {
            if e > pos && s[e - 1] == '\r' {
                assert(s.subrange(pos as int, e as int).drop_last() =~= s.subrange(
                    pos as int,
                    e as int - 1,
                ));
            }
            assert(line@ =~= strip_cr(s.subrange(pos as int, e as int)));
        }
        let ghost prev = r@;
        let ghost oldpos = pos as int;
        r.push(line);
        if e < len {
            pos = e + 1;
        } else {
            pos = len;
        }
        proof {
            if e as int == len as int {
                assert(spec_lines_from(s, e as int + 1) =~= Seq::<Seq<char>>::empty());
                assert(spec_lines_from(s, pos as int) =~= Seq::<Seq<char>>::empty());
            }
            assert(spec_lines_from(s, oldpos) =~= seq![strip_cr(s.subrange(oldpos, e as int))]
                + spec_lines_from(s, e as int + 1));
            assert(r@.map_values(|l: String| l@) =~= prev.map_values(|l: String| l@).push(line@));
            assert(spec_lines(s) =~= r@.map_values(|l: String| l@) + spec_lines_from(
                s,
                pos as int,
            ));
        }
    }
    proof {
        assert(spec_lines_from(s, pos as int) =~= Seq::<Seq<char>>::empty());
        assert(spec_lines(s) =~= r@.map_values(|l: String| l@));
        assert forall|k: int| 0 <= k < r@.len() implies r@[k]@ == spec_lines(text@)[k] by {
            assert(r@.map_values(|l: String| l@)[k] == r@[k]@);
        }
    }
    r
}

} // verus!
