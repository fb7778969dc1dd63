//! The record grammar: comma-separated rows of `type, client, tx, amount`
//! with whitespace-trimmed fields, case-insensitive kind names and decimal
//! amount literals, and the formatting of output rows.

use vstd::prelude::*;

use crate::amount::{Amount, MAX_UNITS};
use crate::model::{Account, AccountState, Transaction, TransactionType};

verus! {

/// Ten to the `n`.
pub open spec fn pow10(n: nat) -> int
    decreases n,
{
    if n == 0 {
        1
    } else {
        10 * pow10((n - 1) as nat)
    }
}

/// The concrete powers of ten the grammar works with.
pub proof fn lemma_pow10_vals()
    ensures
        pow10(0) == 1,
        pow10(1) == 10,
        pow10(2) == 100,
        pow10(3) == 1000,
        pow10(4) == 10_000,
        pow10(5) == 100_000,
        pow10(6) == 1_000_000,
        pow10(7) == 10_000_000,
        pow10(8) == 100_000_000,
        pow10(20) == 100_000_000_000_000_000_000,
{
    reveal_with_fuel(pow10, 21);
}

/// Ten to the larger exponent is at least ten to the smaller.
pub proof fn lemma_pow10_le(a: nat, b: nat)
    requires
        a <= b,
    ensures
        0 < pow10(a) <= pow10(b),
    decreases b,
{
    if b > 0 {
        if a == b {
            lemma_pow10_le((a - 1) as nat, (b - 1) as nat);
        } else {
            lemma_pow10_le(a, (b - 1) as nat);
        }
    }
}

/// The position of the first occurrence of `c` in `s`, or `s.len()` if
/// there is none.
pub open spec fn pos_of(s: Seq<u8>, c: u8) -> int
    decreases s.len(),
{
    if s.len() == 0 {
        0
    } else if s[0] == c {
        0
    } else {
        1 + pos_of(s.subrange(1, s.len() as int), c)
    }
}

/// `pos_of` is pinned down by what lies before it and at it.
pub proof fn lemma_pos_of_is(s: Seq<u8>, c: u8, k: int)
    requires
        0 <= k <= s.len(),
        forall|i: int| 0 <= i < k ==> s[i] != c,
        k < s.len() ==> s[k] == c,
    ensures
        pos_of(s, c) == k,
    decreases s.len(),
{
    if s.len() == 0 {
    } else if s[0] == c {
        assert(k == 0);
    } else {
        let t = s.subrange(1, s.len() as int);
        assert forall|i: int| 0 <= i < k - 1 implies t[i] != c by {
            assert(t[i] == s[i + 1]);
        }
        lemma_pos_of_is(t, c, k - 1);
    }
}

/// Scans `s` from `from` for the first occurrence of `target`.
fn find_byte(s: &[u8], from: usize, target: u8) -> (p: usize)
    requires
        from <= s@.len(),
    ensures
        from <= p <= s@.len(),
        forall|i: int| from <= i < p ==> s@[i] != target,
        p < s@.len() ==> s@[p as int] == target,
{
    let mut p = from;
    while p < s.len()
        invariant
            from <= p <= s@.len(),
            forall|i: int| from <= i < p ==> s@[i] != target,
        decreases s@.len() - p,
    {
        if s[p] == target {
            return p;
        }
        p = p + 1;
    }
    p
}

/// An ASCII decimal digit.
pub open spec fn is_digit(c: u8) -> bool {
    48 <= c <= 57
}

/// Every byte of `s` is a digit.
pub open spec fn all_digits(s: Seq<u8>) -> bool {
    forall|i: int| 0 <= i < s.len() ==> is_digit(#[trigger] s[i])
}

/// The number the digit string `s` denotes (most significant first; the
/// empty string denotes zero).
pub open spec fn digits_value(s: Seq<u8>) -> int
    decreases s.len(),
{
    if s.len() == 0 {
        0
    } else {
        digits_value(s.drop_last()) * 10 + (s[s.len() - 1] - 48)
    }
}

/// A digit string of length `n` denotes a value below ten to the `n`.
pub proof fn lemma_digits_value_bound(s: Seq<u8>)
    requires
        all_digits(s),
    ensures
        0 <= digits_value(s) < pow10(s.len() as nat),
    decreases s.len(),
{
    if s.len() > 0 {
        lemma_digits_value_bound(s.drop_last());
    }
}

/// Reads a string of at most twenty digits. `None` exactly when some byte
/// is not a digit.
fn parse_digits(s: &[u8]) -> (r: Option<u128>)
    requires
        s@.len() <= 20,
    ensures
        (r is Some) == all_digits(s@),
        r matches Some(v) ==> v == digits_value(s@),
{
    let mut v: u128 = 0;
    let mut i: usize = 0;
    proof {
        lemma_pow10_vals();
    }
    while i < s.len()
        invariant
            i <= s@.len() <= 20,
            all_digits(s@.subrange(0, i as int)),
            v == digits_value(s@.subrange(0, i as int)),
            v < pow10(i as nat),
        decreases s@.len() - i,
    {
        let c = s[i];
        if c < 48 || c > 57 {
            return None;
        }
        proof {
            lemma_pow10_le(i as nat, 19);
            lemma_pow10_le((i + 1) as nat, 20);
            lemma_pow10_vals();
            assert(pow10((i + 1) as nat) == 10 * pow10(i as nat));
        }
        v = v * 10 + ((c - 48) as u128);
        proof {
            assert(s@.subrange(0, (i + 1) as int).drop_last() =~= s@.subrange(0, i as int));
            assert(all_digits(s@.subrange(0, (i + 1) as int)));
        }
        i = i + 1;
    }
    proof {
        assert(s@.subrange(0, s@.len() as int) =~= s@);
    }
    Some(v)
}

/// The value, in base units, that the amount literal `s` denotes: one to
/// twenty integer digits, optionally followed by a dot and one to eight
/// fractional digits, within the representable range. Anything else is
/// malformed.
pub open spec fn spec_amount(s: Seq<u8>) -> Option<int> {
    let d = pos_of(s, 46);
    if d == s.len() {
        if 1 <= s.len() <= 20 && all_digits(s) {
            check_range(digits_value(s) * 100_000_000)
        } else {
            None
        }
    } else {
        let ip = s.subrange(0, d);
        let fp = s.subrange(d + 1, s.len() as int);
        if 1 <= ip.len() <= 20 && 1 <= fp.len() <= 8 && all_digits(ip) && all_digits(fp) {
            check_range(
                digits_value(ip) * 100_000_000 + digits_value(fp) * pow10((8 - fp.len()) as nat),
            )
        } else {
            None
        }
    }
}

/// `Some(v)` when `v` is representable, `None` otherwise.
pub open spec fn check_range(v: int) -> Option<int> {
    if v <= MAX_UNITS as int {
        Some(v)
    } else {
        None
    }
}

/// The scale of a fractional part `n` digits long.
fn frac_scale(n: usize) -> (r: u128)
    requires
        1 <= n <= 8,
    ensures
        r == pow10((8 - n) as nat),
        r <= 10_000_000,
{
    proof {
        lemma_pow10_vals();
    }
    match n {
        1 => 10_000_000,
        2 => 1_000_000,
        3 => 100_000,
        4 => 10_000,
        5 => 1_000,
        6 => 100,
        7 => 10,
        _ => 1,
    }
}

/// Reads an amount literal.
pub fn parse_amount(s: &[u8]) -> (r: Option<Amount>)
    ensures
        (r is Some) == (spec_amount(s@) is Some),
        r matches Some(a) ==> spec_amount(s@) == Some(a@) && a@ <= MAX_UNITS,
{
    let n = s.len();
    let d = find_byte(s, 0, 46);
    proof {
        lemma_pos_of_is(s@, 46, d as int);
        lemma_pow10_vals();
    }
    if d == n {
        if n < 1 || n > 20 {
            return None;
        }
        match parse_digits(s) {
            None => None,
            Some(v) => {
                proof {
                    lemma_digits_value_bound(s@);
                    lemma_pow10_le(s@.len() as nat, 20);
                    assert(v * 100_000_000 <= (pow10(20) - 1) * 100_000_000) by (nonlinear_arith)
                        requires
                            0 <= v <= pow10(20) - 1,
                    ;
                }
                let units = v * 100_000_000;
                if units > MAX_UNITS {
                    None
                } else {
                    Some(Amount::from_units(units))
                }
            },
        }
    } else {
        let fl = n - d - 1;
        if d < 1 || d > 20 || fl < 1 || fl > 8 {
            return None;
        }
        let ipart = &s[0..d];
        let fpart = &s[d + 1..n];
        proof {
            assert(ipart@ =~= s@.subrange(0, d as int));
            assert(fpart@ =~= s@.subrange(d + 1, n as int));
        }
        let vi = match parse_digits(ipart) {
            None => {
                return None;
            },
            Some(v) => v,
        };
        let vf = match parse_digits(fpart) {
            None => {
                return None;
            },
            Some(v) => v,
        };
        let scale = frac_scale(fl);
        proof {
            lemma_digits_value_bound(ipart@);
            lemma_digits_value_bound(fpart@);
            lemma_pow10_le(ipart@.len() as nat, 20);
            lemma_pow10_le(fpart@.len() as nat, 8);
            assert(vi * 100_000_000 <= (pow10(20) - 1) * 100_000_000) by (nonlinear_arith)
                requires
                    0 <= vi <= pow10(20) - 1,
            ;
            assert(vf * scale < pow10(fpart@.len() as nat) * scale) by (nonlinear_arith)
                requires
                    0 <= vf < pow10(fpart@.len() as nat),
                    1 <= scale,
            ;
            assert(pow10(fpart@.len() as nat) * pow10((8 - fpart@.len()) as nat) == pow10(8)) by {
                lemma_pow10_adds(fpart@.len() as nat, (8 - fpart@.len()) as nat);
            }
        }
        let units = vi * 100_000_000 + vf * scale;
        if units > MAX_UNITS {
            None
        } else {
            Some(Amount::from_units(units))
        }
    }
}

/// Ten to a sum of exponents is the product of the powers.
pub proof fn lemma_pow10_adds(a: nat, b: nat)
    ensures
        pow10(a + b) == pow10(a) * pow10(b),
    decreases a,
{
    if a == 0 {
    } else {
        lemma_pow10_adds((a - 1) as nat, b);
        assert((10 * pow10((a - 1) as nat)) * pow10(b) == 10 * (pow10((a - 1) as nat) * pow10(b)))
            by (nonlinear_arith);
    }
}

/// The value of a client identifier field: one to twenty digits denoting
/// at most `u16::MAX`.
pub open spec fn spec_u16(s: Seq<u8>) -> Option<u16> {
    if 1 <= s.len() <= 20 && all_digits(s) && digits_value(s) <= u16::MAX {
        Some(digits_value(s) as u16)
    } else {
        None
    }
}

/// Reads a client identifier field.
pub fn parse_u16(s: &[u8]) -> (r: Option<u16>)
    ensures
        r == spec_u16(s@),
{
    if s.len() < 1 || s.len() > 20 {
        return None;
    }
    match parse_digits(s) {
        None => None,
        Some(v) => {
            if v > 65535 {
                None
            } else {
                Some(v as u16)
            }
        },
    }
}

/// The value of a transaction identifier field: one to twenty digits
/// denoting at most `u32::MAX`.
pub open spec fn spec_u32(s: Seq<u8>) -> Option<u32> {
    if 1 <= s.len() <= 20 && all_digits(s) && digits_value(s) <= u32::MAX {
        Some(digits_value(s) as u32)
    } else {
        None
    }
}

/// Reads a transaction identifier field.
pub fn parse_u32(s: &[u8]) -> (r: Option<u32>)
    ensures
        r == spec_u32(s@),
{
    if s.len() < 1 || s.len() > 20 {
        return None;
    }
    match parse_digits(s) {
        None => None,
        Some(v) => {
            if v > 4294967295 {
                None
            } else {
                Some(v as u32)
            }
        },
    }
}

/// An upper-case ASCII letter mapped to lower case; all else unchanged.
pub open spec fn spec_lower(c: u8) -> u8 {
    if 65 <= c <= 90 {
        (c + 32) as u8
    } else {
        c
    }
}

/// `s`, lowered byte by byte.
pub open spec fn lower_seq(s: Seq<u8>) -> Seq<u8> {
    s.map_values(|c: u8| spec_lower(c))
}

/// The bytes of `"deposit"`.
pub open spec fn name_deposit() -> Seq<u8> {
    seq![100u8, 101u8, 112u8, 111u8, 115u8, 105u8, 116u8]
}

/// The bytes of `"withdrawal"`.
pub open spec fn name_withdrawal() -> Seq<u8> {
    seq![119u8, 105u8, 116u8, 104u8, 100u8, 114u8, 97u8, 119u8, 97u8, 108u8]
}

/// The bytes of `"dispute"`.
pub open spec fn name_dispute() -> Seq<u8> {
    seq![100u8, 105u8, 115u8, 112u8, 117u8, 116u8, 101u8]
}

/// The bytes of `"resolve"`.
pub open spec fn name_resolve() -> Seq<u8> {
    seq![114u8, 101u8, 115u8, 111u8, 108u8, 118u8, 101u8]
}

/// The bytes of `"chargeback"`.
pub open spec fn name_chargeback() -> Seq<u8> {
    seq![99u8, 104u8, 97u8, 114u8, 103u8, 101u8, 98u8, 97u8, 99u8, 107u8]
}

/// The transaction kind a field names, compared case-insensitively against
/// the five kind names.
pub open spec fn spec_kind(s: Seq<u8>) -> Option<TransactionType> {
    if lower_seq(s) == name_deposit() {
        Some(TransactionType::Deposit)
    } else if lower_seq(s) == name_withdrawal() {
        Some(TransactionType::Withdrawal)
    } else if lower_seq(s) == name_dispute() {
        Some(TransactionType::Dispute)
    } else if lower_seq(s) == name_resolve() {
        Some(TransactionType::Resolve)
    } else if lower_seq(s) == name_chargeback() {
        Some(TransactionType::Chargeback)
    } else {
        None
    }
}

/// Lowers one byte.
fn lower_byte(c: u8) -> (r: u8)
    ensures
        r == spec_lower(c),
{
    if 65 <= c && c <= 90 {
        c + 32
    } else {
        c
    }
}

/// Reads a kind field.
pub fn parse_kind(s: &[u8]) -> (r: Option<TransactionType>)
    ensures
        r == spec_kind(s@),
{
    if s.len() == 7 {
        let c0 = lower_byte(s[0]);
        let c1 = lower_byte(s[1]);
        let c2 = lower_byte(s[2]);
        let c3 = lower_byte(s[3]);
        let c4 = lower_byte(s[4]);
        let c5 = lower_byte(s[5]);
        let c6 = lower_byte(s[6]);
        proof {
            assert(lower_seq(s@) =~= seq![c0, c1, c2, c3, c4, c5, c6]);
        }
        if c0 == 100 && c1 == 101 && c2 == 112 && c3 == 111 && c4 == 115 && c5 == 105 && c6
            == 116 {
            proof {
                assert(lower_seq(s@) =~= name_deposit());
            }
            Some(TransactionType::Deposit)
        } else if c0 == 100 && c1 == 105 && c2 == 115 && c3 == 112 && c4 == 117 && c5 == 116 && c6
            == 101 {
            proof {
                assert(lower_seq(s@) =~= name_dispute());
            }
            Some(TransactionType::Dispute)
        } else if c0 == 114 && c1 == 101 && c2 == 115 && c3 == 111 && c4 == 108 && c5 == 118 && c6
            == 101 {
            proof {
                assert(lower_seq(s@) =~= name_resolve());
            }
            Some(TransactionType::Resolve)
        } else {
            proof {
                assert(lower_seq(s@).len() == 7);
                assert(lower_seq(s@) != name_withdrawal());
                assert(lower_seq(s@) != name_chargeback());
                assert(lower_seq(s@) != name_deposit());
                assert(lower_seq(s@) != name_dispute());
                assert(lower_seq(s@) != name_resolve());
            }
            None
        }
    } else if s.len() == 10 {
        let c0 = lower_byte(s[0]);
        let c1 = lower_byte(s[1]);
        let c2 = lower_byte(s[2]);
        let c3 = lower_byte(s[3]);
        let c4 = lower_byte(s[4]);
        let c5 = lower_byte(s[5]);
        let c6 = lower_byte(s[6]);
        let c7 = lower_byte(s[7]);
        let c8 = lower_byte(s[8]);
        let c9 = lower_byte(s[9]);
        proof {
            assert(lower_seq(s@) =~= seq![c0, c1, c2, c3, c4, c5, c6, c7, c8, c9]);
        }
        if c0 == 119 && c1 == 105 && c2 == 116 && c3 == 104 && c4 == 100 && c5 == 114 && c6 == 97
            && c7 == 119 && c8 == 97 && c9 == 108 {
            proof {
                assert(lower_seq(s@) =~= name_withdrawal());
            }
            Some(TransactionType::Withdrawal)
        } else if c0 == 99 && c1 == 104 && c2 == 97 && c3 == 114 && c4 == 103 && c5 == 101 && c6
            == 98 && c7 == 97 && c8 == 99 && c9 == 107 {
            proof {
                assert(lower_seq(s@) =~= name_chargeback());
            }
            Some(TransactionType::Chargeback)
        } else {
            proof {
                assert(lower_seq(s@).len() == 10);
                assert(lower_seq(s@) != name_deposit());
                assert(lower_seq(s@) != name_dispute());
                assert(lower_seq(s@) != name_resolve());
                assert(lower_seq(s@) != name_withdrawal());
                assert(lower_seq(s@) != name_chargeback());
            }
            None
        }
    } else {
        proof {
            assert(lower_seq(s@).len() == s@.len());
            assert(lower_seq(s@) != name_deposit());
            assert(lower_seq(s@) != name_dispute());
            assert(lower_seq(s@) != name_resolve());
            assert(lower_seq(s@) != name_withdrawal());
            assert(lower_seq(s@) != name_chargeback());
        }
        None
    }
}

/// ASCII whitespace, which trimming drops from both ends of a field.
pub open spec fn is_space(c: u8) -> bool {
    c == 32 || c == 9 || c == 10 || c == 13 || c == 12
}

/// `s` with leading whitespace dropped.
pub open spec fn trim_front(s: Seq<u8>) -> Seq<u8>
    decreases s.len(),
{
    if s.len() > 0 && is_space(s[0]) {
        trim_front(s.subrange(1, s.len() as int))
    } else {
        s
    }
}

/// `s` with trailing whitespace dropped.
pub open spec fn trim_back(s: Seq<u8>) -> Seq<u8>
    decreases s.len(),
{
    if s.len() > 0 && is_space(s[s.len() - 1]) {
        trim_back(s.drop_last())
    } else {
        s
    }
}

/// `s` with whitespace dropped from both ends.
pub open spec fn spec_trim(s: Seq<u8>) -> Seq<u8> {
    trim_back(trim_front(s))
}

fn is_space_byte(c: u8) -> (r: bool)
    ensures
        r == is_space(c),
{
    c == 32 || c == 9 || c == 10 || c == 13 || c == 12
}

/// The trimmed field: `s` without its leading and trailing whitespace.
pub fn trim_slice(s: &[u8]) -> (r: &[u8])
    ensures
        r@ == spec_trim(s@),
{
    let n = s.len();
    proof {
        assert(s@.subrange(0, n as int) =~= s@);
    }
    let mut a: usize = 0;
    while a < n && is_space_byte(s[a])
        invariant
            a <= n == s@.len(),
            trim_front(s@) == trim_front(s@.subrange(a as int, n as int)),
        decreases n - a,
    {
        proof {
            assert(s@.subrange(a as int, n as int).subrange(1, (n - a) as int) =~= s@.subrange(
                a + 1,
                n as int,
            ));
        }
        a = a + 1;
    }
    proof {
        assert(trim_front(s@) == s@.subrange(a as int, n as int));
    }
    let mut b: usize = n;
    while b > a && is_space_byte(s[b - 1])
        invariant
            a <= b <= n == s@.len(),
            trim_back(s@.subrange(a as int, n as int)) == trim_back(s@.subrange(a as int, b as int)),
        decreases b,
    {
        proof {
            assert(s@.subrange(a as int, b as int).drop_last() =~= s@.subrange(
                a as int,
                b - 1 as int,
            ));
        }
        b = b - 1;
    }
    proof {
        assert(trim_back(s@.subrange(a as int, b as int)) == s@.subrange(a as int, b as int));
    }
    &s[a..b]
}

/// The fields of `s`, split on commas.
pub open spec fn comma_split(s: Seq<u8>) -> Seq<Seq<u8>>
    decreases s.len(),
{
    let p = pos_of(s, 44);
    if 0 <= p < s.len() {
        seq![s.subrange(0, p)] + comma_split(s.subrange(p + 1, s.len() as int))
    } else {
        seq![s]
    }
}

/// A line decoded into a record: exactly three or four comma-separated,
/// whitespace-trimmed fields. The kind, client and transaction identifier
/// must parse; the amount field may be absent or empty, and otherwise must
/// be a well-formed literal. `None` is a malformed line, which the
/// ingestion driver skips.
pub open spec fn spec_record(line: Seq<u8>) -> Option<Transaction> {
    let fs = comma_split(line);
    if fs.len() == 3 || fs.len() == 4 {
        match (spec_kind(spec_trim(fs[0])), spec_u16(spec_trim(fs[1])), spec_u32(
            spec_trim(fs[2]),
        )) {
            (Some(k), Some(c), Some(x)) => {
                if fs.len() == 4 && spec_trim(fs[3]).len() != 0 {
                    match spec_amount(spec_trim(fs[3])) {
                        Some(v) => Some(
                            Transaction {
                                transaction_type: k,
                                client: c,
                                tx: x,
                                amount: Some(Amount { units: v as u128 }),
                            },
                        ),
                        None => None,
                    }
                } else {
                    Some(Transaction { transaction_type: k, client: c, tx: x, amount: None })
                }
            },
            _ => None,
        }
    } else {
        None
    }
}

/// Reads one line into a record.
pub fn parse_record(line: &[u8]) -> (r: Option<Transaction>)
    ensures
        r == spec_record(line@),
{
    let n = line.len();
    let c1 = find_byte(line, 0, 44);
    proof {
        lemma_pos_of_is(line@, 44, c1 as int);
    }
    if c1 == n {
        return None;
    }
    let c2 = find_byte(line, c1 + 1, 44);
    let ghost s1 = line@.subrange(c1 + 1, n as int);
    proof {
        assert forall|i: int| 0 <= i < c2 - c1 - 1 implies s1[i] != 44 by {
            assert(s1[i] == line@[c1 + 1 + i]);
        }
        lemma_pos_of_is(s1, 44, c2 - c1 - 1);
    }
    if c2 == n {
        proof {
            assert(comma_split(s1) =~= seq![s1]);
            assert(comma_split(line@) =~= seq![line@.subrange(0, c1 as int), s1]);
        }
        return None;
    }
    let c3 = find_byte(line, c2 + 1, 44);
    let ghost s2 = line@.subrange(c2 + 1, n as int);
    proof {
        assert(s1.subrange(0, c2 - c1 - 1) =~= line@.subrange(c1 + 1, c2 as int));
        assert(s1.subrange(c2 - c1, s1.len() as int) =~= s2);
        assert forall|i: int| 0 <= i < c3 - c2 - 1 implies s2[i] != 44 by {
            assert(s2[i] == line@[c2 + 1 + i]);
        }
        lemma_pos_of_is(s2, 44, c3 - c2 - 1);
    }
    let ghost f0 = line@.subrange(0, c1 as int);
    let ghost f1 = line@.subrange(c1 + 1, c2 as int);
    if c3 < n {
        let c4 = find_byte(line, c3 + 1, 44);
        let ghost s3 = line@.subrange(c3 + 1, n as int);
        proof {
            assert(s2.subrange(0, c3 - c2 - 1) =~= line@.subrange(c2 + 1, c3 as int));
            assert(s2.subrange(c3 - c2, s2.len() as int) =~= s3);
            assert forall|i: int| 0 <= i < c4 - c3 - 1 implies s3[i] != 44 by {
                assert(s3[i] == line@[c3 + 1 + i]);
            }
            lemma_pos_of_is(s3, 44, c4 - c3 - 1);
        }
        if c4 < n {
            // five or more fields
            proof {
                let rest = s3.subrange(c4 - c3, s3.len() as int);
                let f2x = line@.subrange(c2 + 1, c3 as int);
                let f3x = s3.subrange(0, c4 - c3 - 1);
                assert(comma_split(s3) =~= seq![f3x] + comma_split(rest));
                assert(comma_split(s2) =~= seq![f2x] + comma_split(s3));
                assert(comma_split(s1) =~= seq![f1] + comma_split(s2));
                assert(comma_split(line@) =~= seq![f0, f1, f2x, f3x] + comma_split(rest));
                assert(comma_split(line@).len() >= 5);
            }
            return None;
        }
        let ghost f2 = line@.subrange(c2 + 1, c3 as int);
        proof {
            assert(comma_split(s3) =~= seq![s3]);
            assert(comma_split(s2) =~= seq![f2] + comma_split(s3));
            assert(comma_split(s1) =~= seq![f1] + comma_split(s2));
            assert(comma_split(line@) =~= seq![f0, f1, f2, s3]);
        }
        let kf = trim_slice(&line[0..c1]);
        let cf = trim_slice(&line[c1 + 1..c2]);
        let xf = trim_slice(&line[c2 + 1..c3]);
        let af = trim_slice(&line[c3 + 1..n]);
        let kind = match parse_kind(kf) {
            Some(k) => k,
            None => {
                return None;
            },
        };
        let client = match parse_u16(cf) {
            Some(c) => c,
            None => {
                return None;
            },
        };
        let tx = match parse_u32(xf) {
            Some(x) => x,
            None => {
                return None;
            },
        };
        if af.len() == 0 {
            Some(Transaction { transaction_type: kind, client, tx, amount: None })
        } else {
            match parse_amount(af) {
                Some(a) => Some(
                    Transaction { transaction_type: kind, client, tx, amount: Some(a) },
                ),
                None => None,
            }
        }
    } else {
        let ghost f2 = s2;
        proof {
            assert(comma_split(s2) =~= seq![s2]);
            assert(comma_split(s1) =~= seq![f1] + comma_split(s2));
            assert(comma_split(line@) =~= seq![f0, f1, f2]);
        }
        let kf = trim_slice(&line[0..c1]);
        let cf = trim_slice(&line[c1 + 1..c2]);
        let xf = trim_slice(&line[c2 + 1..n]);
        let kind = match parse_kind(kf) {
            Some(k) => k,
            None => {
                return None;
            },
        };
        let client = match parse_u16(cf) {
            Some(c) => c,
            None => {
                return None;
            },
        };
        let tx = match parse_u32(xf) {
            Some(x) => x,
            None => {
                return None;
            },
        };
        Some(Transaction { transaction_type: kind, client, tx, amount: None })
    }
}

/// The decimal digits of `n`, most significant first.
pub open spec fn dec_digits(n: int) -> Seq<u8>
    decreases n,
{
    if 0 <= n <= 9 {
        seq![(48 + n) as u8]
    } else if n >= 10 {
        dec_digits(n / 10).push((48 + n % 10) as u8)
    } else {
        seq![]
    }
}

/// Appends the decimal digits of `n` to `out`.
pub fn push_digits(out: &mut Vec<u8>, n: u128)
    ensures
        final(out)@ == old(out)@ + dec_digits(n as int),
    decreases n,
{
    if n <= 9 {
        out.push((48 + n) as u8);
        proof {
            assert(final(out)@ =~= old(out)@ + dec_digits(n as int));
        }
    } else {
        proof {
            vstd::arithmetic::div_mod::lemma_fundamental_div_mod(n as int, 10);
        }
        push_digits(out, n / 10);
        out.push((48 + (n % 10)) as u8);
        proof {
            assert(final(out)@ =~= old(out)@ + dec_digits(n as int));
        }
    }
}

/// The eight digits of a fractional part, most significant first.
pub open spec fn pad8(fp: int) -> Seq<u8> {
    seq![
        (48 + (fp / 10_000_000) % 10) as u8,
        (48 + (fp / 1_000_000) % 10) as u8,
        (48 + (fp / 100_000) % 10) as u8,
        (48 + (fp / 10_000) % 10) as u8,
        (48 + (fp / 1_000) % 10) as u8,
        (48 + (fp / 100) % 10) as u8,
        (48 + (fp / 10) % 10) as u8,
        (48 + fp % 10) as u8,
    ]
}

/// `s` with trailing zero digits dropped.
pub open spec fn trim_zeros(s: Seq<u8>) -> Seq<u8>
    decreases s.len(),
{
    if s.len() > 0 && s[s.len() - 1] == 48 {
        trim_zeros(s.drop_last())
    } else {
        s
    }
}

/// `trim_zeros` keeps exactly the prefix up to the last non-zero digit.
proof fn lemma_trim_zeros_at(s: Seq<u8>, k: int)
    requires
        0 <= k <= s.len(),
        forall|i: int| k <= i < s.len() ==> s[i] == 48,
        k > 0 ==> s[k - 1] != 48,
    ensures
        trim_zeros(s) == s.subrange(0, k),
    decreases s.len(),
{
    if k == s.len() {
        assert(s.subrange(0, k) =~= s);
    } else {
        assert(s.drop_last().subrange(0, k) =~= s.subrange(0, k));
        lemma_trim_zeros_at(s.drop_last(), k);
    }
}

/// Eight zero digits denote a zero fractional part.
proof fn lemma_pad8_zero(fp: int)
    requires
        0 <= fp < 100_000_000,
        (fp / 10_000_000) % 10 == 0,
        (fp / 1_000_000) % 10 == 0,
        (fp / 100_000) % 10 == 0,
        (fp / 10_000) % 10 == 0,
        (fp / 1_000) % 10 == 0,
        (fp / 100) % 10 == 0,
        (fp / 10) % 10 == 0,
        fp % 10 == 0,
    ensures
        fp == 0,
{
    lemma_all_zero_digits_step(fp, 10_000_000);
    lemma_all_zero_digits_step(fp, 1_000_000);
    lemma_all_zero_digits_step(fp, 100_000);
    lemma_all_zero_digits_step(fp, 10_000);
    lemma_all_zero_digits_step(fp, 1_000);
    lemma_all_zero_digits_step(fp, 100);
    lemma_all_zero_digits_step(fp, 10);
}

/// When `v` is below ten times `scale` and its digit at `scale` is zero,
/// `v` lies below `scale`.
proof fn lemma_all_zero_digits_step(v: int, scale: int)
    requires
        0 < scale,
        0 <= v < 10 * scale,
        (v / scale) % 10 == 0,
    ensures
        v < scale,
{
    vstd::arithmetic::div_mod::lemma_fundamental_div_mod(v, scale);
    let q = v / scale;
    let r = v % scale;
    assert(0 <= q < 10) by (nonlinear_arith)
        requires
            v == q * scale + r,
            0 <= r < scale,
            0 < scale,
            0 <= v < 10 * scale,
    ;
    vstd::arithmetic::div_mod::lemma_fundamental_div_mod_converse(q, 10, 0, q);
    assert(scale * q == 0) by (nonlinear_arith)
        requires
            q == 0,
    ;
}

/// An amount formatted as a decimal literal: the integer part, and — when
/// the fractional part is not zero — a dot and the fractional digits with
/// trailing zeros dropped.
pub open spec fn spec_format_amount(v: int) -> Seq<u8> {
    let ip = v / 100_000_000;
    let fp = v % 100_000_000;
    if fp == 0 {
        dec_digits(ip)
    } else {
        dec_digits(ip) + seq![46u8] + trim_zeros(pad8(fp))
    }
}

/// Appends the decimal literal of `a` to `out`.
pub fn format_amount_into(out: &mut Vec<u8>, a: Amount)
    ensures
        final(out)@ == old(out)@ + spec_format_amount(a@),
{
    let ip = a.units / 100_000_000;
    let fp = a.units % 100_000_000;
    push_digits(out, ip);
    if fp == 0 {
        return;
    }
    out.push(46);
    let ghost mid = out@;
    let d0 = (48 + (fp / 10_000_000) % 10) as u8;
    let d1 = (48 + (fp / 1_000_000) % 10) as u8;
    let d2 = (48 + (fp / 100_000) % 10) as u8;
    let d3 = (48 + (fp / 10_000) % 10) as u8;
    let d4 = (48 + (fp / 1_000) % 10) as u8;
    let d5 = (48 + (fp / 100) % 10) as u8;
    let d6 = (48 + (fp / 10) % 10) as u8;
    let d7 = (48 + fp % 10) as u8;
    proof {
        assert(pad8(fp as int) =~= seq![d0, d1, d2, d3, d4, d5, d6, d7]);
    }
    let keep7 = d7 != 48;
    let keep6 = keep7 || d6 != 48;
    let keep5 = keep6 || d5 != 48;
    let keep4 = keep5 || d4 != 48;
    let keep3 = keep4 || d3 != 48;
    let keep2 = keep3 || d2 != 48;
    let keep1 = keep2 || d1 != 48;
    let ghost k: int = if keep7 {
        8
    } else if keep6 {
        7
    } else if keep5 {
        6
    } else if keep4 {
        5
    } else if keep3 {
        4
    } else if keep2 {
        3
    } else if keep1 {
        2
    } else {
        1
    };
    proof {
        if !keep1 && d0 == 48 {
            lemma_pad8_zero(fp as int);
        }
        lemma_trim_zeros_at(pad8(fp as int), k);
    }
    out.push(d0);
    if keep1 {
        out.push(d1);
    }
    if keep2 {
        out.push(d2);
    }
    if keep3 {
        out.push(d3);
    }
    if keep4 {
        out.push(d4);
    }
    if keep5 {
        out.push(d5);
    }
    if keep6 {
        out.push(d6);
    }
    if keep7 {
        out.push(d7);
    }
    proof {
        assert(out@ =~= mid + pad8(fp as int).subrange(0, k));
        assert(out@ =~= old(out)@ + spec_format_amount(a@));
    }
}

/// The boolean literal of the lock flag.
pub open spec fn bool_bytes(b: bool) -> Seq<u8> {
    if b {
        seq![116u8, 114u8, 117u8, 101u8]
    } else {
        seq![102u8, 97u8, 108u8, 115u8, 101u8]
    }
}

/// One output row: `client,available,held,total,locked`, without a line
/// terminator.
pub open spec fn spec_account_row(s: AccountState) -> Seq<u8> {
    dec_digits(s.client as int) + seq![44u8] + spec_format_amount(s.available) + seq![44u8]
        + spec_format_amount(s.held) + seq![44u8] + spec_format_amount(s.total) + seq![44u8]
        + bool_bytes(s.locked)
}

/// Formats one collected account as an output row.
pub fn format_account_row(a: &Account) -> (r: Vec<u8>)
    ensures
        r@ == spec_account_row(a@),
{
    let mut out: Vec<u8> = Vec::new();
    push_digits(&mut out, a.client() as u128);
    out.push(44);
    format_amount_into(&mut out, a.available());
    out.push(44);
    format_amount_into(&mut out, a.held());
    out.push(44);
    format_amount_into(&mut out, a.total());
    out.push(44);
    if a.locked() {
        out.push(116);
        out.push(114);
        out.push(117);
        out.push(101);
    } else {
        out.push(102);
        out.push(97);
        out.push(108);
        out.push(115);
        out.push(101);
    }
    proof {
        assert(out@ =~= spec_account_row(a@));
    }
    out
}

} // verus!
