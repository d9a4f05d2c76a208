//! Release version numbers: parsing `1.2.3`-style versions and ordering them.

use vstd::prelude::*;

use crate::text::{chars_of, decimal, digit_char};

verus! {

/// A version is split into parts at `.` and `-`.
pub open spec fn is_version_separator(c: char) -> bool {
    c == '.' || c == '-'
}

/// The parts of `s` between separators; empty parts are kept, so `""` has one
/// empty part (the behaviour of `str::split` with a set of characters).
pub open spec fn version_parts(s: Seq<char>) -> Seq<Seq<char>>
    decreases s.len(),
{
    if s.len() == 0 {
        seq![Seq::<char>::empty()]
    } else {
        let rest = version_parts(s.drop_last());
        if is_version_separator(s.last()) {
            rest.push(Seq::<char>::empty())
        } else {
            rest.update(rest.len() - 1, rest.last().push(s.last()))
        }
    }
}

/// `c` is an ASCII digit.
pub open spec fn is_digit(c: char) -> bool {
    '0' <= c && c <= '9'
}

/// The numeric value of a string of ASCII digits.
pub open spec fn digits_value(d: Seq<char>) -> nat
    decreases d.len(),
{
    if d.len() == 0 {
        0
    } else {
        digits_value(d.drop_last()) * 10 + ((d.last() as u32) - 48) as nat
    }
}

/// The digits of a number: the text after an optional leading `+`.
pub open spec fn unsigned_digits(p: Seq<char>) -> Seq<char> {
    if p.len() > 0 && p[0] == '+' {
        p.drop_first()
    } else {
        p
    }
}

/// Every character is an ASCII digit.
pub open spec fn all_digits(d: Seq<char>) -> bool {
    forall|i: int| 0 <= i < d.len() ==> is_digit(#[trigger] d[i])
}

/// What `str::parse::<u64>` accepts: an optional `+`, then at least one ASCII
/// digit, with a value that fits in a `u64`.
pub open spec fn parse_u64_spec(p: Seq<char>) -> Option<nat> {
    let digits = unsigned_digits(p);
    if digits.len() == 0 || !all_digits(digits) {
        None
    } else if digits_value(digits) > u64::MAX {
        None
    } else {
        Some(digits_value(digits))
    }
}

/// The numbers of each part, when every part is a `u64`.
pub open spec fn parse_parts(parts: Seq<Seq<char>>) -> Option<Seq<nat>>
    decreases parts.len(),
{
    if parts.len() == 0 {
        Some(Seq::empty())
    } else {
        match (parse_parts(parts.drop_last()), parse_u64_spec(parts.last())) {
            (Some(ns), Some(n)) => Some(ns.push(n)),
            _ => None,
        }
    }
}

/// The numbers of a version string, when every part is a `u64`.
pub open spec fn version_numbers(s: Seq<char>) -> Option<Seq<nat>> {
    parse_parts(version_parts(s))
}

/// Part `i` of a version, reading missing parts as zero.
pub open spec fn part_at(a: Seq<nat>, i: int) -> nat {
    if 0 <= i < a.len() {
        a[i]
    } else {
        0
    }
}

/// Whether `a` is greater than `b` when both are compared part by part from
/// position `i` up to `n`, missing parts reading as zero.
pub open spec fn newer_from(a: Seq<nat>, b: Seq<nat>, i: nat, n: nat) -> bool
    decreases n - i,
{
    if i >= n {
        false
    } else if part_at(a, i as int) > part_at(b, i as int) {
        true
    } else if part_at(a, i as int) < part_at(b, i as int) {
        false
    } else {
        newer_from(a, b, i + 1, n)
    }
}

/// `latest` is a newer version than `current`: both parse, and after padding the
/// shorter with zero parts, `latest` is lexicographically greater.
pub open spec fn is_newer_spec(latest: Seq<char>, current: Seq<char>) -> bool {
    match (version_numbers(latest), version_numbers(current)) {
        (Some(a), Some(b)) => newer_from(a, b, 0, if a.len() >= b.len() { a.len() } else { b.len() }),
        _ => false,
    }
}

/// Splits a version into its parts.
fn split_version(s: &Vec<char>) -> (r: Vec<Vec<char>>)
    ensures
        r@.map_values(|p: Vec<char>| p@) == version_parts(s@),
{
    let mut parts: Vec<Vec<char>> = Vec::new();
    let mut cur: Vec<char> = Vec::new();
    let mut i: usize = 0;
    assert(s@.take(0) =~= Seq::<char>::empty());
    while i < s.len()
        invariant
            i <= s@.len(),
            parts@.map_values(|p: Vec<char>| p@).push(cur@) == version_parts(s@.take(i as int)),
        decreases s@.len() - i,
    {
        let c = s[i];
        let ghost before = parts@.map_values(|p: Vec<char>| p@).push(cur@);
        assert(s@.take(i + 1).drop_last() =~= s@.take(i as int));
        assert(s@.take(i + 1).last() == c);
        if c == '.' || c == '-' {
            let done = cur;
            parts.push(done);
            cur = Vec::new();
            assert(parts@.map_values(|p: Vec<char>| p@).push(cur@) =~= before.push(
                Seq::<char>::empty(),
            ));
        } else {
            cur.push(c);
            assert(parts@.map_values(|p: Vec<char>| p@).push(cur@) =~= before.update(
                before.len() - 1,
                before.last().push(c),
            ));
        }
        i = i + 1;
    }
    assert(s@.take(i as int) =~= s@);
    parts.push(cur);
    parts
}

proof fn lemma_digits_value_prefix(d: Seq<char>, i: int)
    requires
        0 <= i <= d.len(),
    ensures
        digits_value(d.take(i)) <= digits_value(d),
    decreases d.len(),
{
    if i < d.len() {
        assert(d.drop_last().take(i) =~= d.take(i));
        lemma_digits_value_prefix(d.drop_last(), i);
    } else {
        assert(d.take(i) =~= d);
    }
}

/// Parses a part as `str::parse::<u64>` does.
fn parse_u64_part(p: &Vec<char>) -> (r: Option<u64>)
    ensures
        match parse_u64_spec(p@) {
            Some(n) => r == Some(n as u64),
            None => r is None,
        },
{
    let start: usize = if p.len() > 0 && p[0] == '+' {
        1
    } else {
        0
    };
    let ghost digits = unsigned_digits(p@);
    assert(digits =~= p@.skip(start as int));
    if start == p.len() {
        return None;
    }
    let mut value: u64 = 0;
    let mut i: usize = start;
    while i < p.len()
        invariant
            start <= i <= p@.len(),
            start < p@.len(),
            digits == p@.skip(start as int),
            digits == unsigned_digits(p@),
            forall|k: int| 0 <= k < i - start ==> is_digit(#[trigger] digits[k]),
            value == digits_value(digits.take(i - start)),
        decreases p@.len() - i,
    {
        let c = p[i];
        assert(digits[i - start] == c);
        if !('0' <= c && c <= '9') {
            assert(!is_digit(digits[i - start]));
            return None;
        }
        let d: u64 = ((c as u32) - 48) as u64;
        assert(digits.take(i + 1 - start).drop_last() =~= digits.take(i - start));
        assert(digits.take(i + 1 - start).last() == c);
        if value > 1844674407370955161 || (value == 1844674407370955161 && d > 5) {
            proof {
                lemma_digits_value_prefix(digits, i + 1 - start);
                assert(digits_value(digits.take(i + 1 - start)) == value * 10 + d);
                assert(digits_value(digits) > u64::MAX);
            }
            return None;
        }
        value = value * 10 + d;
        i = i + 1;
    }
    assert(digits.take(i - start) =~= digits);
    assert(all_digits(digits));
    Some(value)
}

/// Parses every part; `None` as soon as one is not a `u64`.
fn parse_version(s: &str) -> (r: Option<Vec<u64>>)
    ensures
        match version_numbers(s@) {
            Some(ns) => r matches Some(v) && v@.len() == ns.len() && forall|k: int|
                0 <= k < ns.len() ==> v@[k] as nat == #[trigger] ns[k],
            None => r is None,
        },
{
    let parts = split_version(&chars_of(s));
    let ghost pv = parts@.map_values(|p: Vec<char>| p@);
    let mut out: Vec<u64> = Vec::new();
    let mut i: usize = 0;
    assert(pv.take(0) =~= Seq::<Seq<char>>::empty());
    while i < parts.len()
        invariant
            i <= parts@.len(),
            pv == parts@.map_values(|p: Vec<char>| p@),
            pv == version_parts(s@),
            parse_parts(pv.take(i as int)) matches Some(ns) && out@.len() == ns.len() && forall|k: int|
                0 <= k < ns.len() ==> out@[k] as nat == #[trigger] ns[k],
        decreases parts@.len() - i,
    {
        assert(pv.take(i + 1).drop_last() =~= pv.take(i as int));
        assert(pv.take(i + 1).last() == parts@[i as int]@);
        match parse_u64_part(&parts[i]) {
            Some(n) => {
                out.push(n);
            },
            None => {
                proof {
                    assert(parse_parts(pv.take(i + 1)) is None);
                    lemma_parse_parts_none_extends(pv, (i + 1) as int);
                }
                return None;
            },
        }
        i = i + 1;
    }
    assert(pv.take(i as int) =~= pv);
    Some(out)
}

/// Once some part fails to parse, longer prefixes fail too.
proof fn lemma_parse_parts_none_extends(parts: Seq<Seq<char>>, i: int)
    requires
        0 <= i <= parts.len(),
        parse_parts(parts.take(i)) is None,
    ensures
        parse_parts(parts) is None,
    decreases parts.len() - i,
{
    if i < parts.len() {
        assert(parts.take(i + 1).drop_last() =~= parts.take(i));
        lemma_parse_parts_none_extends(parts, i + 1);
    } else {
        assert(parts.take(i) =~= parts);
    }
}

/// Whether release `latest` is newer than `current`: each is split at `.` and
/// `-` into parts that must all be `u64` numbers (else the answer is `false`);
/// the shorter list is padded with zeros and the lists compared lexicographically.
pub fn is_newer_version(latest: &str, current: &str) -> (r: bool)
    ensures
        r == is_newer_spec(latest@, current@),
{
    let a = match parse_version(latest) {
        Some(v) => v,
        None => {
            return false;
        },
    };
    let b = match parse_version(current) {
        Some(v) => v,
        None => {
            return false;
        },
    };
    let ghost na = version_numbers(latest@).unwrap();
    let ghost nb = version_numbers(current@).unwrap();
    let n: usize = if a.len() >= b.len() {
        a.len()
    } else {
        b.len()
    };
    let mut i: usize = 0;
    while i < n
        invariant
            i <= n,
            n == if na.len() >= nb.len() {
                na.len()
            } else {
                nb.len()
            },
            version_numbers(latest@) == Some(na),
            version_numbers(current@) == Some(nb),
            a@.len() == na.len(),
            b@.len() == nb.len(),
            forall|k: int| 0 <= k < na.len() ==> a@[k] as nat == #[trigger] na[k],
            forall|k: int| 0 <= k < nb.len() ==> b@[k] as nat == #[trigger] nb[k],
            newer_from(na, nb, 0, n as nat) == newer_from(na, nb, i as nat, n as nat),
        decreases n - i,
    {
        let x: u64 = if i < a.len() {
            a[i]
        } else {
            0
        };
        let y: u64 = if i < b.len() {
            b[i]
        } else {
            0
        };
        assert(x as nat == part_at(na, i as int));
        assert(y as nat == part_at(nb, i as int));
        if x > y {
            assert(newer_from(na, nb, i as nat, n as nat));
            return true;
        }
        if x < y {
            assert(!newer_from(na, nb, i as nat, n as nat));
            return false;
        }
        i = i + 1;
    }
    false
}

} // verus!

verus! {

proof fn lemma_newer_from_past_end(a: Seq<nat>, b: Seq<nat>, i: nat, n: nat)
    requires
        i >= a.len(),
        i >= b.len(),
    ensures
        !newer_from(a, b, i, n),
    decreases n - i,
{
    if i < n {
        lemma_newer_from_past_end(a, b, i + 1, n);
    }
}

proof fn lemma_newer_from_extend(a: Seq<nat>, b: Seq<nat>, i: nat, n: nat, m: nat)
    requires
        n >= a.len(),
        n >= b.len(),
        m >= n,
    ensures
        newer_from(a, b, i, n) == newer_from(a, b, i, m),
    decreases n - i,
{
    if i >= n {
        lemma_newer_from_past_end(a, b, i, m);
    } else {
        lemma_newer_from_extend(a, b, i + 1, n, m);
    }
}

proof fn lemma_newer_from_irreflexive(a: Seq<nat>, i: nat, n: nat)
    ensures
        !newer_from(a, a, i, n),
    decreases n - i,
{
    if i < n {
        lemma_newer_from_irreflexive(a, i + 1, n);
    }
}

proof fn lemma_newer_from_asymmetric(a: Seq<nat>, b: Seq<nat>, i: nat, n: nat)
    requires
        newer_from(a, b, i, n),
    ensures
        !newer_from(b, a, i, n),
    decreases n - i,
{
    if i < n && part_at(a, i as int) == part_at(b, i as int) {
        lemma_newer_from_asymmetric(a, b, i + 1, n);
    }
}

proof fn lemma_newer_from_transitive(a: Seq<nat>, b: Seq<nat>, c: Seq<nat>, i: nat, n: nat)
    requires
        newer_from(a, b, i, n),
        newer_from(b, c, i, n),
    ensures
        newer_from(a, c, i, n),
    decreases n - i,
{
    if i < n && part_at(a, i as int) == part_at(b, i as int) && part_at(b, i as int) == part_at(
        c,
        i as int,
    ) {
        lemma_newer_from_transitive(a, b, c, i + 1, n);
    }
}

/// Law: no version is newer than itself.
pub proof fn lemma_version_not_newer_than_itself(v: Seq<char>)
    ensures
        !is_newer_spec(v, v),
{
    if let Some(a) = version_numbers(v) {
        lemma_newer_from_irreflexive(a, 0, a.len());
    }
}

/// Law: of two versions, at most one is newer than the other.
pub proof fn lemma_version_newer_asymmetric(x: Seq<char>, y: Seq<char>)
    requires
        is_newer_spec(x, y),
    ensures
        !is_newer_spec(y, x),
{
    let a = version_numbers(x).unwrap();
    let b = version_numbers(y).unwrap();
    let n = if a.len() >= b.len() {
        a.len()
    } else {
        b.len()
    };
    lemma_newer_from_asymmetric(a, b, 0, n);
}

/// Law: "newer than" is transitive.
pub proof fn lemma_version_newer_transitive(x: Seq<char>, y: Seq<char>, z: Seq<char>)
    requires
        is_newer_spec(x, y),
        is_newer_spec(y, z),
    ensures
        is_newer_spec(x, z),
{
    let a = version_numbers(x).unwrap();
    let b = version_numbers(y).unwrap();
    let c = version_numbers(z).unwrap();
    let nab = if a.len() >= b.len() {
        a.len()
    } else {
        b.len()
    };
    let nbc = if b.len() >= c.len() {
        b.len()
    } else {
        c.len()
    };
    let nac = if a.len() >= c.len() {
        a.len()
    } else {
        c.len()
    };
    let m = if nab >= c.len() {
        nab
    } else {
        c.len()
    };
    lemma_newer_from_extend(a, b, 0, nab, m);
    lemma_newer_from_extend(b, c, 0, nbc, m);
    lemma_newer_from_transitive(a, b, c, 0, m);
    lemma_newer_from_extend(a, c, 0, nac, m);
}

/// Law: appending zero parts does not change the order: a version padded with
/// `.0` parts is neither newer nor older than the version itself.
pub proof fn lemma_version_zero_padding(a: Seq<nat>, b: Seq<nat>)
    requires
        b.len() >= a.len(),
        forall|i: int| 0 <= i < a.len() ==> b[i] == a[i],
        forall|i: int| a.len() <= i < b.len() ==> b[i] == 0,
    ensures
        !newer_from(a, b, 0, b.len()),
        !newer_from(b, a, 0, b.len()),
{
    assert forall|i: int| part_at(a, i) == part_at(b, i) by {}
    lemma_newer_from_equal_parts(a, b, 0, b.len());
}

proof fn lemma_newer_from_equal_parts(a: Seq<nat>, b: Seq<nat>, i: nat, n: nat)
    requires
        forall|k: int| part_at(a, k) == part_at(b, k),
    ensures
        !newer_from(a, b, i, n),
        !newer_from(b, a, i, n),
    decreases n - i,
{
    if i < n {
        assert(part_at(a, i as int) == part_at(b, i as int));
        lemma_newer_from_equal_parts(a, b, i + 1, n);
    }
}

/// The decimal form of a number is a nonempty run of digits worth the number.
proof fn lemma_decimal_number(n: nat)
    ensures
        decimal(n).len() > 0,
        all_digits(decimal(n)),
        digits_value(decimal(n)) == n,
    decreases n,
{
    if n >= 10 {
        lemma_decimal_number(n / 10);
        let d = decimal(n / 10).push(digit_char(n % 10));
        assert(decimal(n) == d);
        assert forall|i: int| 0 <= i < d.len() implies is_digit(#[trigger] d[i]) by {
            if i < d.len() - 1 {
                assert(d[i] == decimal(n / 10)[i]);
            }
        }
        assert(d.drop_last() =~= decimal(n / 10));
        assert(d.last() == digit_char(n % 10));
        assert((digit_char(n % 10) as u32) == 48 + n % 10);
        assert(digits_value(d) == digits_value(d.drop_last()) * 10 + ((d.last() as u32) - 48) as nat);
        assert(digits_value(d) == (n / 10) * 10 + n % 10);
        assert(n == (n / 10) * 10 + n % 10);
    } else {
        assert(decimal(n) =~= seq![digit_char(n)]);
        assert(seq![digit_char(n)].drop_last() =~= Seq::<char>::empty());
        assert((digit_char(n) as u32) == 48 + n);
        let d = seq![digit_char(n)];
        assert(digits_value(d) == digits_value(d.drop_last()) * 10 + ((d.last() as u32) - 48) as nat);
        assert(digits_value(d.drop_last()) == 0);
    }
}

/// A sequence without separators is a single part.
proof fn lemma_one_part(s: Seq<char>)
    requires
        forall|i: int| 0 <= i < s.len() ==> !is_version_separator(#[trigger] s[i]),
    ensures
        version_parts(s) == seq![s],
    decreases s.len(),
{
    if s.len() > 0 {
        lemma_one_part(s.drop_last());
        assert(!is_version_separator(s[s.len() - 1]));
        assert(s.drop_last().push(s.last()) =~= s);
        assert(seq![s.drop_last()].update(0, s.drop_last().push(s.last())) =~= seq![s]);
    } else {
        assert(s =~= Seq::<char>::empty());
    }
}

/// Two runs without separators joined by a separator are two parts.
proof fn lemma_two_parts(x: Seq<char>, sep: char, y: Seq<char>)
    requires
        is_version_separator(sep),
        forall|i: int| 0 <= i < x.len() ==> !is_version_separator(#[trigger] x[i]),
        forall|i: int| 0 <= i < y.len() ==> !is_version_separator(#[trigger] y[i]),
    ensures
        version_parts(x + seq![sep] + y) == seq![x, y],
    decreases y.len(),
{
    let z = x + seq![sep] + y;
    if y.len() == 0 {
        lemma_one_part(x);
        assert(z.drop_last() =~= x);
        assert(z.last() == sep);
        assert(y =~= Seq::<char>::empty());
        assert(seq![x].push(Seq::<char>::empty()) =~= seq![x, y]);
    } else {
        lemma_two_parts(x, sep, y.drop_last());
        assert(z.drop_last() =~= x + seq![sep] + y.drop_last());
        assert(z.last() == y.last());
        assert(!is_version_separator(y[y.len() - 1]));
        assert(y.drop_last().push(y.last()) =~= y);
        assert(seq![x, y.drop_last()].update(1, y.drop_last().push(y.last())) =~= seq![x, y]);
    }
}

/// The decimal form of a number up to `u64::MAX` parses as that number.
proof fn lemma_decimal_parses(n: nat)
    requires
        n <= u64::MAX,
    ensures
        parse_u64_spec(decimal(n)) == Some(n),
        forall|i: int| 0 <= i < decimal(n).len() ==> !is_version_separator(#[trigger] decimal(n)[i]),
{
    lemma_decimal_number(n);
    assert(is_digit(decimal(n)[0]));
    assert(unsigned_digits(decimal(n)) == decimal(n));
    assert forall|i: int| 0 <= i < decimal(n).len() implies !is_version_separator(
        #[trigger] decimal(n)[i],
    ) by {
        assert(is_digit(decimal(n)[i]));
    }
}

/// Law: versions compare by their numbers, part by part, not as text: a single
/// number is newer than another exactly when it is greater; `a.b` (or `a-b`) is
/// newer than `c.d` exactly when `(a, b)` comes after `(c, d)`; and a missing part
/// counts as zero, so `a.b` is newer than `c` exactly when `a > c`, or `a == c`
/// and `b > 0`.
pub proof fn lemma_versions_compare_numbers(a: nat, b: nat, c: nat, d: nat, s1: char, s2: char)
    requires
        a <= u64::MAX,
        b <= u64::MAX,
        c <= u64::MAX,
        d <= u64::MAX,
        is_version_separator(s1),
        is_version_separator(s2),
    ensures
        is_newer_spec(decimal(a), decimal(c)) <==> a > c,
        is_newer_spec(decimal(a) + seq![s1] + decimal(b), decimal(c) + seq![s2] + decimal(d)) <==> (a
            > c || (a == c && b > d)),
        is_newer_spec(decimal(a) + seq![s1] + decimal(b), decimal(c)) <==> (a > c || (a == c && b
            > 0)),
{
    lemma_decimal_parses(a);
    lemma_decimal_parses(b);
    lemma_decimal_parses(c);
    lemma_decimal_parses(d);
    lemma_one_part(decimal(a));
    lemma_one_part(decimal(c));
    lemma_two_parts(decimal(a), s1, decimal(b));
    lemma_two_parts(decimal(c), s2, decimal(d));
    let pa = seq![decimal(a)];
    let pc = seq![decimal(c)];
    let pab = seq![decimal(a), decimal(b)];
    let pcd = seq![decimal(c), decimal(d)];
    assert(pa.drop_last() =~= Seq::<Seq<char>>::empty());
    assert(pc.drop_last() =~= Seq::<Seq<char>>::empty());
    assert(pab.drop_last() =~= pa);
    assert(pcd.drop_last() =~= pc);
    assert(parse_parts(Seq::<Seq<char>>::empty()) == Some(Seq::<nat>::empty()));
    assert(parse_parts(pa) == Some(seq![a]));
    assert(parse_parts(pc) == Some(seq![c]));
    assert(parse_parts(pab) == Some(seq![a].push(b)));
    assert(parse_parts(pcd) == Some(seq![c].push(d)));
    assert(seq![a].push(b) =~= seq![a, b]);
    assert(seq![c].push(d) =~= seq![c, d]);
    assert(version_numbers(decimal(a)) == Some(seq![a]));
    assert(version_numbers(decimal(c)) == Some(seq![c]));
    assert(version_numbers(decimal(a) + seq![s1] + decimal(b)) == Some(seq![a, b]));
    assert(version_numbers(decimal(c) + seq![s2] + decimal(d)) == Some(seq![c, d]));
    reveal_with_fuel(newer_from, 3);
}

} // verus!
