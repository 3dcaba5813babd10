use vstd::prelude::*;

use crate::commands::Command;

verus! {

/// ASCII whitespace, the set trimmed from the edges of a field.
pub open spec fn is_ws(b: u8) -> bool {
    b == 0x20 || b == 0x09 || b == 0x0a || b == 0x0b || b == 0x0c || b == 0x0d
}

/// `s` without its leading whitespace.
pub open spec fn trim_front(s: Seq<u8>) -> Seq<u8>
    decreases s.len(),
{
    if s.len() > 0 && is_ws(s[0]) {
        trim_front(s.subrange(1, s.len() as int))
    } else {
        s
    }
}

/// `s` without its trailing whitespace.
pub open spec fn trim_back(s: Seq<u8>) -> Seq<u8>
    decreases s.len(),
{
    if s.len() > 0 && is_ws(s.last()) {
        trim_back(s.drop_last())
    } else {
        s
    }
}

/// `s` without leading and trailing whitespace.
pub open spec fn trimmed(s: Seq<u8>) -> Seq<u8> {
    trim_back(trim_front(s))
}

/// An ASCII decimal digit.
pub open spec fn is_digit(b: u8) -> bool {
    0x30 <= b <= 0x39
}

/// Every byte of `s` is a decimal digit. The empty sequence qualifies.
pub open spec fn all_digits(s: Seq<u8>) -> bool {
    forall|i: int| 0 <= i < s.len() ==> is_digit(#[trigger] s[i])
}

/// The number the digit sequence `s` denotes in base ten; zero for the
/// empty sequence.
pub open spec fn digits_value(s: Seq<u8>) -> int
    decreases s.len(),
{
    if s.len() == 0 {
        0
    } else {
        digits_value(s.drop_last()) * 10 + (s.last() - 0x30)
    }
}

/// A digit string denotes a nonnegative number.
pub proof fn lemma_digits_value_nonneg(s: Seq<u8>)
    requires
        all_digits(s),
    ensures
        digits_value(s) >= 0,
    decreases s.len(),
{
    if s.len() > 0 {
        assert(is_digit(s.last()));
        lemma_digits_value_nonneg(s.drop_last());
    }
}

/// The value of a prefix of a digit string never exceeds the value of
/// the whole string.
pub proof fn lemma_digits_value_mono(s: Seq<u8>, i: int)
    requires
        all_digits(s),
        0 <= i <= s.len(),
    ensures
        digits_value(s.subrange(0, i)) <= digits_value(s),
    decreases s.len() - i,
{
    if i == s.len() {
        assert(s.subrange(0, i) =~= s);
    } else {
        lemma_digits_value_nonneg(s.subrange(0, i));
        assert(is_digit(s[i]));
        assert(s.subrange(0, i + 1).drop_last() =~= s.subrange(0, i));
        lemma_digits_value_mono(s, i + 1);
    }
}

/// At most four digits denote at most 9999; likewise for the shorter
/// lengths.
pub proof fn lemma_digits_value_small(s: Seq<u8>)
    requires
        all_digits(s),
        s.len() <= 4,
    ensures
        digits_value(s) >= 0,
        s.len() <= 1 ==> digits_value(s) <= 9,
        s.len() <= 2 ==> digits_value(s) <= 99,
        s.len() <= 3 ==> digits_value(s) <= 999,
        digits_value(s) <= 9999,
    decreases s.len(),
{
    if s.len() > 0 {
        assert(is_digit(s.last()));
        lemma_digits_value_small(s.drop_last());
    }
}

/// The number a digit string denotes, if it is one made of digits only
/// and its value does not exceed `limit`.
pub open spec fn spec_parse_uint(s: Seq<u8>, limit: u64) -> Option<u64> {
    if all_digits(s) && digits_value(s) <= limit {
        Some(digits_value(s) as u64)
    } else {
        None
    }
}

/// A client id: a nonempty digit string denoting at most `u16::MAX`.
pub open spec fn spec_parse_u16(s: Seq<u8>) -> Option<u16> {
    if s.len() > 0 && all_digits(s) && digits_value(s) <= u16::MAX {
        Some(digits_value(s) as u16)
    } else {
        None
    }
}

/// A transaction id: a nonempty digit string denoting at most
/// `u32::MAX`.
pub open spec fn spec_parse_u32(s: Seq<u8>) -> Option<u32> {
    if s.len() > 0 && all_digits(s) && digits_value(s) <= u32::MAX {
        Some(digits_value(s) as u32)
    } else {
        None
    }
}

/// The position of the first `.` in `s`, or `-1` if there is none.
pub open spec fn first_dot(s: Seq<u8>) -> int
    decreases s.len(),
{
    if s.len() == 0 {
        -1
    } else if s[0] == 0x2e {
        0
    } else {
        let rest = first_dot(s.subrange(1, s.len() as int));
        if rest < 0 {
            -1
        } else {
            rest + 1
        }
    }
}

/// What `first_dot` finds: either there is no dot at all, or the
/// returned position holds the first one.
pub proof fn lemma_first_dot_characterizes(s: Seq<u8>)
    ensures
        first_dot(s) < 0 ==> forall|j: int| 0 <= j < s.len() ==> s[j] != 0x2e,
        first_dot(s) >= 0 ==> 0 <= first_dot(s) < s.len() && s[first_dot(s)] == 0x2e && (forall|
            j: int,
        | 0 <= j < first_dot(s) ==> s[j] != 0x2e),
    decreases s.len(),
{
    if s.len() > 0 && s[0] != 0x2e {
        let rest = s.subrange(1, s.len() as int);
        lemma_first_dot_characterizes(rest);
        assert forall|j: int| 1 <= j < s.len() implies s[j] == rest[j - 1] by {}
    }
}

/// The fractional digits of an amount, scaled to ten-thousandths: at
/// most four digits, padded on the right with zeros.
pub open spec fn frac_scaled(frac: Seq<u8>) -> int {
    if frac.len() == 0 {
        0
    } else if frac.len() == 1 {
        digits_value(frac) * 1000
    } else if frac.len() == 2 {
        digits_value(frac) * 100
    } else if frac.len() == 3 {
        digits_value(frac) * 10
    } else {
        digits_value(frac)
    }
}

/// An unsigned decimal amount, read into ten-thousandths of a unit.
///
/// The accepted shapes are a digit string, or a digit string with one
/// `.` somewhere in it and at most four digits after it; at least one
/// digit must be present, and the scaled value must fit the fixed-point
/// range. Anything else — a sign, a second dot, five fractional
/// digits, an empty string — is rejected.
pub open spec fn spec_parse_amount(s: Seq<u8>) -> Option<u64> {
    if first_dot(s) < 0 {
        if s.len() > 0 && all_digits(s) && digits_value(s) * 10000 <= u64::MAX {
            Some((digits_value(s) * 10000) as u64)
        } else {
            None
        }
    } else {
        let p = first_dot(s);
        let intp = s.subrange(0, p);
        let frac = s.subrange(p + 1, s.len() as int);
        if (intp.len() > 0 || frac.len() > 0) && all_digits(intp) && all_digits(frac)
            && frac.len() <= 4 && digits_value(intp) * 10000 + frac_scaled(frac) <= u64::MAX {
            Some((digits_value(intp) * 10000 + frac_scaled(frac)) as u64)
        } else {
            None
        }
    }
}

/// The label of a deposit: the bytes of the word `deposit`.
pub open spec fn deposit_label() -> Seq<u8> {
    seq![100, 101, 112, 111, 115, 105, 116]
}

/// The label of a withdrawal.
pub open spec fn withdrawal_label() -> Seq<u8> {
    seq![119, 105, 116, 104, 100, 114, 97, 119, 97, 108]
}

/// The label of a dispute.
pub open spec fn dispute_label() -> Seq<u8> {
    seq![100, 105, 115, 112, 117, 116, 101]
}

/// The label of a resolve.
pub open spec fn resolve_label() -> Seq<u8> {
    seq![114, 101, 115, 111, 108, 118, 101]
}

/// The label of a chargeback.
pub open spec fn chargeback_label() -> Seq<u8> {
    seq![99, 104, 97, 114, 103, 101, 98, 97, 99, 107]
}

/// The command a raw record denotes, if any.
///
/// A record reads as `kind, client, tx, amount`, every field trimmed of
/// surrounding whitespace. The first three fields must be present, the
/// ids must parse, the kind must be one of the five labels, and a
/// deposit or withdrawal must carry a parseable amount in its fourth
/// field. A record outside this closed set denotes nothing and is
/// ignored by the caller.
pub open spec fn spec_parse_command(record: Seq<Seq<u8>>) -> Option<Command> {
    if record.len() < 3 {
        None
    } else {
        let kind = trimmed(record[0]);
        match (spec_parse_u16(trimmed(record[1])), spec_parse_u32(trimmed(record[2]))) {
            (Some(client_id), Some(trx_id)) => {
                if kind == deposit_label() {
                    if record.len() < 4 {
                        None
                    } else {
                        match spec_parse_amount(trimmed(record[3])) {
                            Some(amount) => Some(Command::Deposit { client_id, trx_id, amount }),
                            None => None,
                        }
                    }
                } else if kind == withdrawal_label() {
                    if record.len() < 4 {
                        None
                    } else {
                        match spec_parse_amount(trimmed(record[3])) {
                            Some(amount) => Some(Command::Withdrawal { client_id, trx_id, amount }),
                            None => None,
                        }
                    }
                } else if kind == dispute_label() {
                    Some(Command::Dispute { client_id, trx_id })
                } else if kind == resolve_label() {
                    Some(Command::Resolve { client_id, trx_id })
                } else if kind == chargeback_label() {
                    Some(Command::Chargeback { client_id, trx_id })
                } else {
                    None
                }
            },
            _ => None,
        }
    }
}

/// If every byte before `i` is whitespace, trimming from the front may
/// as well start at `i`.
proof fn lemma_trim_front_skip(s: Seq<u8>, i: int)
    requires
        0 <= i <= s.len(),
        forall|j: int| 0 <= j < i ==> is_ws(#[trigger] s[j]),
    ensures
        trim_front(s) == trim_front(s.subrange(i, s.len() as int)),
    decreases i,
{
    if i > 0 {
        let rest = s.subrange(1, s.len() as int);
        assert(rest.subrange(i - 1, rest.len() as int) =~= s.subrange(i, s.len() as int));
        lemma_trim_front_skip(rest, i - 1);
    } else {
        assert(s.subrange(0, s.len() as int) =~= s);
    }
}

/// If every byte from `i` on is whitespace, trimming from the back may
/// as well stop at `i`.
proof fn lemma_trim_back_skip(s: Seq<u8>, i: int)
    requires
        0 <= i <= s.len(),
        forall|j: int| i <= j < s.len() ==> is_ws(#[trigger] s[j]),
    ensures
        trim_back(s) == trim_back(s.subrange(0, i)),
    decreases s.len() - i,
{
    if i < s.len() {
        assert(is_ws(s.last()));
        lemma_trim_back_skip(s.drop_last(), i);
        assert(s.drop_last().subrange(0, i) =~= s.subrange(0, i));
    } else {
        assert(s.subrange(0, i) =~= s);
    }
}

/// Copies `field[from..to]` into a fresh vector.
fn copy_range(field: &Vec<u8>, from: usize, to: usize) -> (out: Vec<u8>)
    requires
        from <= to <= field@.len(),
    ensures
        out@ == field@.subrange(from as int, to as int),
{
    let mut out: Vec<u8> = Vec::new();
    let mut i: usize = from;
    assert(out@ =~= field@.subrange(from as int, from as int));
    while i < to
        invariant
            from <= i <= to <= field@.len(),
            out@ == field@.subrange(from as int, i as int),
        decreases to - i,
    {
        out.push(field[i]);
        proof {
            assert(out@ =~= field@.subrange(from as int, i + 1));
        }
        i = i + 1;
    }
    out
}

/// Whether `b` is ASCII whitespace, exactly as `is_ws` states.
fn is_ws_check(b: u8) -> (r: bool)
    ensures
        r == is_ws(b),
{
    b == 0x20 || b == 0x09 || b == 0x0a || b == 0x0b || b == 0x0c || b == 0x0d
}

/// Copies `field` without its surrounding ASCII whitespace.
fn trimmed_copy(field: &Vec<u8>) -> (out: Vec<u8>)
    ensures
        out@ == trimmed(field@),
{
    let n = field.len();
    let mut from: usize = 0;
    while from < n && is_ws_check(field[from])
        invariant
            0 <= from <= n,
            n == field@.len(),
            forall|j: int| 0 <= j < from ==> is_ws(#[trigger] field@[j]),
        decreases n - from,
    {
        from = from + 1;
    }
    proof {
        lemma_trim_front_skip(field@, from as int);
    }
    let mut to: usize = n;
    while to > from && is_ws_check(field[to - 1])
        invariant
            from <= to <= n,
            n == field@.len(),
            forall|j: int| to <= j < n ==> is_ws(#[trigger] field@[j]),
        decreases to,
    {
        to = to - 1;
    }
    proof {
        let front = field@.subrange(from as int, n as int);
        assert(trim_front(field@) == front);
        if to == from {
            lemma_trim_back_skip(front, 0);
            assert(front.subrange(0, 0) =~= field@.subrange(from as int, to as int));
        } else {
            lemma_trim_back_skip(front, to - from);
            assert(front.subrange(0, to - from) =~= field@.subrange(from as int, to as int));
        }
        let kept = field@.subrange(from as int, to as int);
        if kept.len() > 0 {
            assert(!is_ws(kept.last()));
        }
        assert(trim_back(kept) == kept);
    }
    copy_range(field, from, to)
}

/// Reads a digit string as a number, refusing any value above `limit`,
/// exactly as `spec_parse_uint` states.
fn parse_uint(digits: &Vec<u8>, limit: u64) -> (r: Option<u64>)
    ensures
        r == spec_parse_uint(digits@, limit),
{
    let n = digits.len();
    let mut acc: u64 = 0;
    let mut i: usize = 0;
    assert(digits@.subrange(0, 0) =~= Seq::<u8>::empty());
    while i < n
        invariant
            0 <= i <= n,
            n == digits@.len(),
            forall|j: int| 0 <= j < i ==> is_digit(#[trigger] digits@[j]),
            acc == digits_value(digits@.subrange(0, i as int)),
            acc <= limit,
        decreases n - i,
    {
        let b = digits[i];
        if b < 0x30 || b > 0x39 {
            assert(!is_digit(digits@[i as int]));
            return None;
        }
        let d = (b - 0x30) as u64;
        let next = match acc.checked_mul(10) {
            Some(scaled) => scaled.checked_add(d),
            None => None,
        };
        proof {
            assert(digits@.subrange(0, i + 1).drop_last() =~= digits@.subrange(0, i as int));
        }
        match next {
            Some(value) => {
                if value > limit {
                    proof {
                        if all_digits(digits@) {
                            lemma_digits_value_mono(digits@, i + 1);
                        }
                    }
                    return None;
                }
                acc = value;
            },
            None => {
                proof {
                    if all_digits(digits@) {
                        lemma_digits_value_mono(digits@, i + 1);
                    }
                }
                return None;
            },
        }
        i = i + 1;
    }
    proof {
        assert(digits@.subrange(0, n as int) =~= digits@);
    }
    Some(acc)
}

/// The position of the first `.` in `field`, if any.
fn find_dot(field: &Vec<u8>) -> (r: Option<usize>)
    ensures
        r is Some ==> (r->Some_0 as int) == first_dot(field@),
        r is None ==> first_dot(field@) < 0,
{
    let n = field.len();
    let mut i: usize = 0;
    while i < n
        invariant
            0 <= i <= n,
            n == field@.len(),
            forall|j: int| 0 <= j < i ==> field@[j] != 0x2e,
        decreases n - i,
    {
        if field[i] == 0x2e {
            proof {
                lemma_first_dot_characterizes(field@);
                let p = first_dot(field@);
                if p < 0 {
                    assert(field@[i as int] != 0x2e);
                }
                if p < i {
                    assert(field@[p] != 0x2e);
                }
                if p > i {
                    assert(field@[i as int] != 0x2e);
                }
            }
            return Some(i);
        }
        i = i + 1;
    }
    proof {
        lemma_first_dot_characterizes(field@);
        if first_dot(field@) >= 0 {
            assert(field@[first_dot(field@)] != 0x2e);
        }
    }
    None
}

/// Reads a trimmed field as a client id.
fn parse_u16_field(field: &Vec<u8>) -> (r: Option<u16>)
    ensures
        r == spec_parse_u16(trimmed(field@)),
{
    let t = trimmed_copy(field);
    if t.len() == 0 {
        return None;
    }
    match parse_uint(&t, 0xffff) {
        Some(value) => {
            proof {
                lemma_digits_value_nonneg(t@);
            }
            Some(value as u16)
        },
        None => None,
    }
}

/// Reads a trimmed field as a transaction id.
fn parse_u32_field(field: &Vec<u8>) -> (r: Option<u32>)
    ensures
        r == spec_parse_u32(trimmed(field@)),
{
    let t = trimmed_copy(field);
    if t.len() == 0 {
        return None;
    }
    match parse_uint(&t, 0xffff_ffff) {
        Some(value) => {
            proof {
                lemma_digits_value_nonneg(t@);
            }
            Some(value as u32)
        },
        None => None,
    }
}

/// Reads a trimmed field as a fixed-point amount in ten-thousandths.
fn parse_amount_field(field: &Vec<u8>) -> (r: Option<u64>)
    ensures
        r == spec_parse_amount(trimmed(field@)),
{
    let t = trimmed_copy(field);
    let n = t.len();
    match find_dot(&t) {
        None => {
            if n == 0 {
                return None;
            }
            match parse_uint(&t, u64::MAX / 10000) {
                Some(units) => {
                    proof {
                        lemma_digits_value_nonneg(t@);
                    }
                    Some(units * 10000)
                },
                None => None,
            }
        },
        Some(p) => {
            proof {
                lemma_first_dot_characterizes(t@);
            }
            let frac_len = n - p - 1;
            if p == 0 && frac_len == 0 {
                return None;
            }
            if frac_len > 4 {
                return None;
            }
            let int_part = copy_range(&t, 0, p);
            let frac_part = copy_range(&t, p + 1, n);
            let units = match parse_uint(&int_part, u64::MAX / 10000) {
                Some(units) => units,
                None => {
                    proof {
                        if all_digits(int_part@) && all_digits(frac_part@) {
                            lemma_digits_value_nonneg(int_part@);
                            lemma_digits_value_small(frac_part@);
                        }
                    }
                    return None;
                },
            };
            let frac_value = match parse_uint(&frac_part, 9999) {
                Some(frac_value) => frac_value,
                None => {
                    proof {
                        if all_digits(frac_part@) {
                            lemma_digits_value_small(frac_part@);
                        }
                    }
                    return None;
                },
            };
            proof {
                lemma_digits_value_nonneg(int_part@);
                lemma_digits_value_small(frac_part@);
            }
            let scaled: u64 = if frac_len == 0 {
                0
            } else if frac_len == 1 {
                frac_value * 1000
            } else if frac_len == 2 {
                frac_value * 100
            } else if frac_len == 3 {
                frac_value * 10
            } else {
                frac_value
            };
            match (units * 10000).checked_add(scaled) {
                Some(total) => Some(total),
                None => None,
            }
        },
    }
}

/// Compares two byte vectors for equality of their contents.
fn vec_eq(a: &Vec<u8>, b: &Vec<u8>) -> (r: bool)
    ensures
        r == (a@ == b@),
{
    if a.len() != b.len() {
        proof {
            assert(a@.len() != b@.len());
        }
        return false;
    }
    let n = a.len();
    let mut i: usize = 0;
    while i < n
        invariant
            0 <= i <= n,
            n == a@.len(),
            n == b@.len(),
            forall|j: int| 0 <= j < i ==> a@[j] == b@[j],
        decreases n - i,
    {
        if a[i] != b[i] {
            return false;
        }
        i = i + 1;
    }
    proof {
        assert(a@ =~= b@);
    }
    true
}

/// Turns raw records into commands.
pub struct CommandParser;

impl CommandParser {
    /// Reads one raw record — a row of byte fields — as a command,
    /// exactly as `spec_parse_command` states. A record that denotes no
    /// command yields `None` and is ignored by the caller.
    pub fn parse_command(record: &Vec<Vec<u8>>) -> (cmd: Option<Command>)
        ensures
            cmd == spec_parse_command(record.deep_view()),
    {
        proof {
            assert forall|i: int| 0 <= i < record@.len() implies record.deep_view()[i]
                == record@[i]@ by {}
        }
        if record.len() < 3 {
            return None;
        }
        let kind = trimmed_copy(&record[0]);
        let client_id = match parse_u16_field(&record[1]) {
            Some(client_id) => client_id,
            None => {
                return None;
            },
        };
        let trx_id = match parse_u32_field(&record[2]) {
            Some(trx_id) => trx_id,
            None => {
                return None;
            },
        };
        let deposit: Vec<u8> = vec![100, 101, 112, 111, 115, 105, 116];
        let withdrawal: Vec<u8> = vec![119, 105, 116, 104, 100, 114, 97, 119, 97, 108];
        let dispute: Vec<u8> = vec![100, 105, 115, 112, 117, 116, 101];
        let resolve: Vec<u8> = vec![114, 101, 115, 111, 108, 118, 101];
        let chargeback: Vec<u8> = vec![99, 104, 97, 114, 103, 101, 98, 97, 99, 107];
        proof {
            assert(deposit@ =~= deposit_label());
            assert(withdrawal@ =~= withdrawal_label());
            assert(dispute@ =~= dispute_label());
            assert(resolve@ =~= resolve_label());
            assert(chargeback@ =~= chargeback_label());
        }
        if vec_eq(&kind, &deposit) {
            if record.len() < 4 {
                return None;
            }
            match parse_amount_field(&record[3]) {
                Some(amount) => Some(Command::Deposit { client_id, trx_id, amount }),
                None => None,
            }
        } else if vec_eq(&kind, &withdrawal) {
            if record.len() < 4 {
                return None;
            }
            match parse_amount_field(&record[3]) {
                Some(amount) => Some(Command::Withdrawal { client_id, trx_id, amount }),
                None => None,
            }
        } else if vec_eq(&kind, &dispute) {
            Some(Command::Dispute { client_id, trx_id })
        } else if vec_eq(&kind, &resolve) {
            Some(Command::Resolve { client_id, trx_id })
        } else if vec_eq(&kind, &chargeback) {
            Some(Command::Chargeback { client_id, trx_id })
        } else {
            None
        }
    }
}

} // verus!
