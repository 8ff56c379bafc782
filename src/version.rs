//! Ordered version values, their truncated comparison rule, and their
//! dot-separated decimal text form.

use std::cmp::Ordering;
use vstd::prelude::*;

verus! {

/// A version: an ordered list of non-negative components.
#[derive(Debug)]
pub struct Version(pub Vec<u64>);

/// The version of a specification file's own format.
pub type SpecVersion = Version;

/// The version recorded inside a running store.
pub type InstanceVersion = Version;

impl View for Version {
    type V = Seq<u64>;

    open spec fn view(&self) -> Seq<u64> {
        self.0@
    }
}

/// Compares `a` and `b` component by component from position `i` on, up to
/// the end of the shorter one; components past that end never decide.
pub open spec fn compare_from(a: Seq<u64>, b: Seq<u64>, i: int) -> Ordering
    decreases a.len() - i,
{
    if i < 0 || i >= a.len() || i >= b.len() {
        Ordering::Equal
    } else if a[i] < b[i] {
        Ordering::Less
    } else if a[i] > b[i] {
        Ordering::Greater
    } else {
        compare_from(a, b, i + 1)
    }
}

/// The ordering of two versions: the first differing paired component
/// decides, and `Equal` when the shorter one runs out first.
pub open spec fn compare_versions(a: Seq<u64>, b: Seq<u64>) -> Ordering {
    compare_from(a, b, 0)
}

proof fn lemma_compare_from_prefix(a: Seq<u64>, b: Seq<u64>, i: int)
    requires
        0 <= i <= a.len() <= b.len(),
        b.subrange(0, a.len() as int) == a,
    ensures
        compare_from(a, b, i) == Ordering::Equal,
        compare_from(b, a, i) == Ordering::Equal,
    decreases a.len() - i,
{
    if i < a.len() {
        assert(b[i] == b.subrange(0, a.len() as int)[i]);
        lemma_compare_from_prefix(a, b, i + 1);
    }
}

/// A version compares `Equal` to every version that extends it: trailing
/// components on the longer side never break a tie, in either direction.
pub proof fn lemma_extension_compares_equal(a: Seq<u64>, b: Seq<u64>)
    requires
        a.len() <= b.len(),
        b.subrange(0, a.len() as int) == a,
    ensures
        compare_versions(a, b) == Ordering::Equal,
        compare_versions(b, a) == Ordering::Equal,
{
    lemma_compare_from_prefix(a, b, 0);
}

impl Version {
    /// The components, in order.
    pub fn components(&self) -> (r: &Vec<u64>)
        ensures
            r@ == self@,
    {
        &self.0
    }

    /// Compares two versions under the truncated rule.
    pub fn compare(&self, other: &Version) -> (r: Ordering)
        ensures
            r == compare_versions(self@, other@),
    {
        let a = &self.0;
        let b = &other.0;
        let mut i: usize = 0;
        while i < a.len() && i < b.len()
            invariant
                a@ == self@,
                b@ == other@,
                i <= a.len(),
                i <= b.len(),
                compare_from(a@, b@, 0) == compare_from(a@, b@, i as int),
            decreases a.len() - i,
        {
            if a[i] < b[i] {
                assert(compare_from(a@, b@, i as int) == Ordering::Less);
                return Ordering::Less;
            }
            if a[i] > b[i] {
                assert(compare_from(a@, b@, i as int) == Ordering::Greater);
                return Ordering::Greater;
            }
            assert(compare_from(a@, b@, i as int) == compare_from(a@, b@, i + 1));
            i = i + 1;
        }
        Ordering::Equal
    }
}

impl Clone for Version {
    fn clone(&self) -> (r: Version)
        ensures
            r@ == self@,
    {
        Version(self.0.clone())
    }
}

/// The character of a decimal digit.
pub open spec fn digit_char(d: nat) -> char {
    (d + 48) as char
}

/// Whether `c` is one of the ASCII decimal digits.
pub open spec fn is_digit(c: char) -> bool {
    '0' <= c && c <= '9'
}

/// The decimal numeral of `n`, without leading zeros.
pub open spec fn decimal(n: nat) -> Seq<char>
    decreases n,
{
    if n < 10 {
        seq![digit_char(n)]
    } else {
        decimal(n / 10).push(digit_char(n % 10))
    }
}

/// The parts joined with a `.` between each two.
pub open spec fn join_dots(parts: Seq<Seq<char>>) -> Seq<char>
    decreases parts.len(),
{
    if parts.len() == 0 {
        Seq::empty()
    } else if parts.len() == 1 {
        parts[0]
    } else {
        join_dots(parts.drop_last()) + seq!['.'] + parts.last()
    }
}

/// The text of a version: its components in decimal, joined by dots.
pub open spec fn render_version(v: Seq<u64>) -> Seq<char> {
    join_dots(Seq::new(v.len(), |i: int| decimal(v[i] as nat)))
}

/// The pieces of `s` between the dots, in order; there is always at least one.
pub open spec fn split_dots(s: Seq<char>) -> Seq<Seq<char>>
    decreases s.len(),
{
    if s.len() == 0 {
        seq![Seq::empty()]
    } else {
        let rest = split_dots(s.drop_last());
        if s.last() == '.' {
            rest.push(Seq::empty())
        } else {
            rest.update(rest.len() - 1, rest.last().push(s.last()))
        }
    }
}

/// The value of a string of decimal digits.
pub open spec fn digits_value(d: Seq<char>) -> nat
    decreases d.len(),
{
    if d.len() == 0 {
        0
    } else {
        digits_value(d.drop_last()) * 10 + (d.last() as nat - 48) as nat
    }
}

/// A piece without the one leading `+` that an unsigned numeral may carry.
pub open spec fn unsigned_digits(c: Seq<char>) -> Seq<char> {
    if c.len() > 0 && c[0] == '+' {
        c.drop_first()
    } else {
        c
    }
}

/// Whether `c` reads as an unsigned 64-bit numeral: an optional `+`, then
/// one or more digits whose value fits.
pub open spec fn is_u64_numeral(c: Seq<char>) -> bool {
    let d = unsigned_digits(c);
    &&& d.len() > 0
    &&& forall|i: int| 0 <= i < d.len() ==> is_digit(#[trigger] d[i])
    &&& digits_value(d) <= u64::MAX
}

/// The component that a piece of version text stands for: its value, or zero
/// where the piece is not a numeral that fits.
pub open spec fn parse_component(c: Seq<char>) -> u64 {
    if is_u64_numeral(c) {
        digits_value(unsigned_digits(c)) as u64
    } else {
        0
    }
}

/// The version that a text stands for: one component per dot-separated piece.
pub open spec fn parse_version(s: Seq<char>) -> Seq<u64> {
    let parts = split_dots(s);
    Seq::new(parts.len(), |i: int| parse_component(parts[i]))
}

fn digit_str(d: u64) -> (r: &'static str)
    requires
        d < 10,
    ensures
        r@ == seq![digit_char(d as nat)],
{
    proof {
        reveal_strlit("0");
        reveal_strlit("1");
        reveal_strlit("2");
        reveal_strlit("3");
        reveal_strlit("4");
        reveal_strlit("5");
        reveal_strlit("6");
        reveal_strlit("7");
        reveal_strlit("8");
        reveal_strlit("9");
    }
    if d == 0 {
        "0"
    } else if d == 1 {
        "1"
    } else if d == 2 {
        "2"
    } else if d == 3 {
        "3"
    } else if d == 4 {
        "4"
    } else if d == 5 {
        "5"
    } else if d == 6 {
        "6"
    } else if d == 7 {
        "7"
    } else if d == 8 {
        "8"
    } else {
        "9"
    }
}

/// Appends the decimal numeral of `n` to `out`.
fn append_decimal(out: &mut String, n: u64)
    ensures
        final(out)@ == old(out)@ + decimal(n as nat),
    decreases n,
{
    if n >= 10 {
        append_decimal(out, n / 10);
    }
    out.append(digit_str(n % 10));
    assert(final(out)@ =~= old(out)@ + decimal(n as nat));
}

impl Version {
    /// The text of this version: its components in decimal, joined by dots
    /// (`[29, 0]` gives `"29.0"`, no components give the empty text).
    pub fn to_string(&self) -> (r: String)
        ensures
            r@ == render_version(self@),
    {
        let ghost parts = Seq::new(self@.len(), |i: int| decimal(self@[i] as nat));
        let mut out = String::new();
        let mut i: usize = 0;
        while i < self.0.len()
            invariant
                i <= self@.len(),
                parts == Seq::new(self@.len(), |i: int| decimal(self@[i] as nat)),
                out@ == join_dots(parts.take(i as int)),
            decreases self@.len() - i,
        {
            proof {
                reveal_strlit(".");
            }
            if i > 0 {
                out.append(".");
            }
            append_decimal(&mut out, self.0[i]);
            proof {
                let next = parts.take(i + 1);
                assert(next.drop_last() =~= parts.take(i as int));
                assert(next.last() == decimal(self@[i as int] as nat));
                if i == 0 {
                    assert(parts.take(0) =~= Seq::<Seq<char>>::empty());
                    assert(out@ =~= next[0]);
                } else {
                    assert(out@ =~= join_dots(next.drop_last()) + seq!['.'] + next.last());
                }
            }
            i = i + 1;
        }
        assert(parts.take(self@.len() as int) =~= parts);
        out
    }
}

proof fn lemma_split_nonempty(s: Seq<char>)
    ensures
        split_dots(s).len() >= 1,
    decreases s.len(),
{
    if s.len() > 0 {
        lemma_split_nonempty(s.drop_last());
    }
}

proof fn lemma_prefix_value_bounded(d: Seq<char>, k: int)
    requires
        0 <= k <= d.len(),
        forall|i: int| 0 <= i < d.len() ==> is_digit(#[trigger] d[i]),
    ensures
        digits_value(d.take(k)) <= digits_value(d),
    decreases d.len(),
{
    if k < d.len() {
        let rest = d.drop_last();
        assert(rest.take(k) =~= d.take(k));
        assert forall|i: int| 0 <= i < rest.len() implies is_digit(#[trigger] rest[i]) by {
            assert(rest[i] == d[i]);
        }
        lemma_prefix_value_bounded(rest, k);
    } else {
        assert(d.take(k) =~= d);
    }
}

/// The value of one piece of version text: the piece as an unsigned 64-bit
/// numeral, or zero where it is not one.
fn parse_numeral(c: &Vec<char>) -> (r: u64)
    ensures
        r == parse_component(c@),
{
    let n = c.len();
    if n == 0 {
        return 0;
    }
    let mut start: usize = 0;
    if c[0] == '+' {
        start = 1;
    }
    if start == n {
        return 0;
    }
    let ghost d = unsigned_digits(c@);
    assert(d =~= c@.subrange(start as int, n as int));
    let mut acc: u64 = 0;
    let mut i: usize = start;
    while i < n
        invariant
            n == c@.len(),
            1 <= n,
            start <= i <= n,
            d == c@.subrange(start as int, n as int),
            d == unsigned_digits(c@),
            forall|j: int| start <= j < i ==> is_digit(#[trigger] c@[j]),
            acc as nat == digits_value(d.take(i - start)),
        decreases n - i,
    {
        let ch = c[i];
        if !('0' <= ch && ch <= '9') {
            assert(!is_digit(d[i - start]));
            assert(!is_u64_numeral(c@)) by {
                if is_u64_numeral(c@) {
                    assert(unsigned_digits(c@) == d);
                    assert(is_digit(d[i - start]));
                }
            }
            return 0;
        }
        let dv: u64 = (ch as u32 - 48) as u64;
        let ghost next = d.take(i + 1 - start);
        assert(next.drop_last() =~= d.take(i - start));
        assert(digits_value(next) == acc * 10 + dv);
        if acc > (u64::MAX - dv) / 10 {
            assert(acc * 10 + dv > u64::MAX) by (nonlinear_arith)
                requires
                    acc > (u64::MAX - dv) / 10,
                    dv <= 9,
            ;
            proof {
                if is_u64_numeral(c@) {
                    assert(unsigned_digits(c@) == d);
                    assert(forall|j: int| 0 <= j < d.len() ==> is_digit(#[trigger] d[j]));
                    lemma_prefix_value_bounded(d, i + 1 - start);
                }
            }
            return 0;
        }
        assert(acc * 10 + dv <= u64::MAX) by (nonlinear_arith)
            requires
                acc <= (u64::MAX - dv) / 10,
                dv <= 9,
        ;
        acc = acc * 10 + dv;
        i = i + 1;
    }
    assert(d.take(n - start) =~= d);
    acc
}

impl Version {
    /// Reads a version from dot-separated text. Each piece is read as an
    /// unsigned 64-bit numeral; a piece that is not one counts as zero.
    pub fn parse(s: &str) -> (r: Version)
        ensures
            r@ == parse_version(s@),
    {
        let n = s.unicode_len();
        let mut out: Vec<u64> = Vec::new();
        let mut cur: Vec<char> = Vec::new();
        let mut i: usize = 0;
        proof {
            assert(s@.take(0) =~= Seq::<char>::empty());
        }
        while i < n
            invariant
                n == s@.len(),
                i <= n,
                split_dots(s@.take(i as int)).len() >= 1,
                cur@ == split_dots(s@.take(i as int)).last(),
                out@ == Seq::new(
                    (split_dots(s@.take(i as int)).len() - 1) as nat,
                    |j: int| parse_component(split_dots(s@.take(i as int))[j]),
                ),
            decreases n - i,
        {
            let ch = s.get_char(i);
            let ghost before = split_dots(s@.take(i as int));
            proof {
                let t = s@.take(i + 1);
                assert(t.drop_last() =~= s@.take(i as int));
                assert(t.last() == ch);
            }
            if ch == '.' {
                let v = parse_numeral(&cur);
                out.push(v);
                cur = Vec::new();
                proof {
                    let after = split_dots(s@.take(i + 1));
                    assert(after == before.push(Seq::empty()));
                    assert(cur@ =~= after.last());
                    assert(out@ =~= Seq::new(
                        (after.len() - 1) as nat,
                        |j: int| parse_component(after[j]),
                    ));
                }
            } else {
                cur.push(ch);
                proof {
                    let after = split_dots(s@.take(i + 1));
                    assert(after == before.update(before.len() - 1, before.last().push(ch)));
                    assert(cur@ =~= after.last());
                    assert(out@ =~= Seq::new(
                        (after.len() - 1) as nat,
                        |j: int| parse_component(after[j]),
                    ));
                }
            }
            i = i + 1;
        }
        let v = parse_numeral(&cur);
        out.push(v);
        proof {
            assert(s@.take(n as int) =~= s@);
            assert(out@ =~= parse_version(s@));
        }
        Version(out)
    }
}

impl PartialEq for Version {
    /// Truncated equality: equal when every paired component is equal.
    fn eq(&self, other: &Version) -> (r: bool) {
        match self.compare(other) {
            Ordering::Equal => true,
            _ => false,
        }
    }
}

impl vstd::std_specs::cmp::PartialEqSpecImpl for Version {
    open spec fn obeys_eq_spec() -> bool {
        true
    }

    open spec fn eq_spec(&self, other: &Version) -> bool {
        compare_versions(self@, other@) == Ordering::Equal
    }
}

impl Eq for Version {

}

impl PartialOrd for Version {
    fn partial_cmp(&self, other: &Version) -> (r: Option<Ordering>) {
        Some(self.compare(other))
    }
}

impl vstd::std_specs::cmp::PartialOrdSpecImpl for Version {
    open spec fn obeys_partial_cmp_spec() -> bool {
        true
    }

    open spec fn partial_cmp_spec(&self, other: &Version) -> Option<Ordering> {
        Some(compare_versions(self@, other@))
    }
}

impl<'a> From<&'a str> for Version {
    fn from(value: &'a str) -> (r: Version)
        ensures
            r@ == parse_version(value@),
    {
        Version::parse(value)
    }
}

// Two versions with the same components are not provably the same value, so
// the trait-level model is left unused; `from` states its result itself.
impl<'a> vstd::std_specs::convert::FromSpecImpl<&'a str> for Version {
    open spec fn obeys_from_spec() -> bool {
        false
    }

    open spec fn from_spec(v: &'a str) -> Version {
        choose|r: Version| r@ == parse_version(v@)
    }
}

impl<const N: usize> From<[u64; N]> for Version {
    fn from(value: [u64; N]) -> (r: Version)
        ensures
            r@ == value@,
    {
        let mut out: Vec<u64> = Vec::new();
        let mut i: usize = 0;
        while i < N
            invariant
                i <= N,
                N == value@.len(),
                out@ == value@.take(i as int),
            decreases N - i,
        {
            out.push(value[i]);
            assert(out@ =~= value@.take(i + 1));
            i = i + 1;
        }
        assert(value@.take(N as int) =~= value@);
        Version(out)
    }
}

// Two versions with the same components are not provably the same value, so
// the trait-level model is left unused; `from` states its result itself.
impl<const N: usize> vstd::std_specs::convert::FromSpecImpl<[u64; N]> for Version {
    open spec fn obeys_from_spec() -> bool {
        false
    }

    open spec fn from_spec(v: [u64; N]) -> Version {
        choose|r: Version| r@ == v@
    }
}

/// Whether `c` is a decimal numeral in its shortest form whose value fits in
/// 64 bits: digits only, at least one, and no leading zero unless it is `0`.
pub open spec fn is_canonical_numeral(c: Seq<char>) -> bool {
    &&& c.len() > 0
    &&& forall|i: int| 0 <= i < c.len() ==> is_digit(#[trigger] c[i])
    &&& (c.len() == 1 || c[0] != '0')
    &&& digits_value(c) <= u64::MAX
}

/// Whether `s` is well-formed version text: dot-separated canonical numerals.
pub open spec fn is_version_text(s: Seq<char>) -> bool {
    forall|i: int| 0 <= i < split_dots(s).len() ==> is_canonical_numeral(#[trigger] split_dots(s)[i])
}

proof fn lemma_join_split(s: Seq<char>)
    ensures
        join_dots(split_dots(s)) == s,
    decreases s.len(),
{
    if s.len() > 0 {
        let init = s.drop_last();
        let rest = split_dots(init);
        lemma_join_split(init);
        lemma_split_nonempty(init);
        if s.last() == '.' {
            let parts = rest.push(Seq::empty());
            assert(parts.drop_last() =~= rest);
            assert(join_dots(parts) =~= s);
        } else {
            let parts = rest.update(rest.len() - 1, rest.last().push(s.last()));
            if rest.len() == 1 {
                assert(join_dots(rest) == rest[0]);
                assert(join_dots(parts) == parts[0]);
                assert(parts[0] == rest[0].push(s.last()));
                assert(s =~= init.push(s.last()));
            } else {
                assert(parts.drop_last() =~= rest.drop_last());
                assert(join_dots(rest) == join_dots(rest.drop_last()) + seq!['.'] + rest.last());
                assert(parts.last() == rest.last().push(s.last()));
                assert(s =~= init.push(s.last()));
                assert(join_dots(parts) =~= s);
            }
        }
    }
}

proof fn lemma_leading_digit_positive(c: Seq<char>)
    requires
        c.len() > 0,
        forall|i: int| 0 <= i < c.len() ==> is_digit(#[trigger] c[i]),
        c[0] != '0',
    ensures
        digits_value(c) >= 1,
    decreases c.len(),
{
    if c.len() > 1 {
        let init = c.drop_last();
        assert(init[0] == c[0]);
        assert forall|i: int| 0 <= i < init.len() implies is_digit(#[trigger] init[i]) by {
            assert(init[i] == c[i]);
        }
        lemma_leading_digit_positive(init);
    }
}

proof fn lemma_decimal_of_numeral(c: Seq<char>)
    requires
        c.len() > 0,
        forall|i: int| 0 <= i < c.len() ==> is_digit(#[trigger] c[i]),
        c.len() == 1 || c[0] != '0',
    ensures
        decimal(digits_value(c)) == c,
    decreases c.len(),
{
    let x = c.last();
    assert(is_digit(c[c.len() - 1]));
    let dx = (x as nat - 48) as nat;
    assert(digit_char(dx) == x);
    if c.len() == 1 {
        assert(c.drop_last() =~= Seq::<char>::empty());
        assert(digits_value(c.drop_last()) == 0);
        assert(digits_value(c) == dx);
        assert(decimal(digits_value(c)) =~= c);
    } else {
        let init = c.drop_last();
        assert(init[0] == c[0]);
        assert forall|i: int| 0 <= i < init.len() implies is_digit(#[trigger] init[i]) by {
            assert(init[i] == c[i]);
        }
        lemma_leading_digit_positive(init);
        lemma_decimal_of_numeral(init);
        let v = digits_value(init);
        let n = digits_value(c);
        assert(n == v * 10 + dx);
        assert(n / 10 == v && n % 10 == dx && n >= 10) by (nonlinear_arith)
            requires
                n == v * 10 + dx,
                dx < 10,
                v >= 1,
        ;
        assert(decimal(n) =~= c);
    }
}

/// Reading well-formed version text and writing the result back gives the
/// same text.
pub proof fn lemma_text_round_trip(s: Seq<char>)
    requires
        is_version_text(s),
    ensures
        render_version(parse_version(s)) == s,
{
    let parts = split_dots(s);
    let v = parse_version(s);
    assert forall|i: int| 0 <= i < parts.len() implies decimal(#[trigger] v[i] as nat) == parts[i] by {
        let c = parts[i];
        assert(is_canonical_numeral(c));
        assert(is_digit(c[0]));
        assert(unsigned_digits(c) == c);
        lemma_decimal_of_numeral(c);
    }
    assert(Seq::new(v.len(), |i: int| decimal(v[i] as nat)) =~= parts);
    lemma_join_split(s);
}

} // verus!
