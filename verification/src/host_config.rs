//! Reading the list of hosted match ids from its configuration text.
use vstd::prelude::*;
use vstd::string::{StringExecFns, StringSliceAdditionalSpecFns};
use vstd::utf8::{
    decode_utf8, encode_utf8_decode_utf8, encode_utf8_valid_utf8, is_char_boundary,
    is_char_boundary_iff_not_is_continuation_byte, is_char_boundary_start_end_of_seq,
    is_continuation_byte, length_of_first_scalar, pop_first_scalar, valid_first_scalar,
    valid_utf8, valid_utf8_split,
};
use crate::match_types::BattleMatchId;

verus! {

/// In valid UTF-8, the byte after an ASCII byte starts a new character.
proof fn lemma_after_ascii_not_continuation(b: Seq<u8>, i: int)
    requires
        valid_utf8(b),
        0 <= i,
        i + 1 < b.len(),
        b[i] <= 0x7f,
    ensures
        !is_continuation_byte(b[i + 1]),
    decreases b.len(),
{
    let n1 = length_of_first_scalar(b);
    let pop = pop_first_scalar(b);
    assert(valid_first_scalar(b));
    assert(valid_utf8(pop));
    if i == 0 {
        assert(n1 == 1);
        assert(pop[0] == b[1]);
        assert(valid_first_scalar(pop));
    } else if i < n1 {
        assert(is_continuation_byte(b[i]));
    } else {
        assert(pop.len() == b.len() - n1);
        assert(pop[i - n1] == b[i]);
        assert(pop[i - n1 + 1] == b[i + 1]);
        lemma_after_ascii_not_continuation(pop, i - n1);
    }
}

/// A configuration value was refused, with a message for the operator.
#[derive(Clone, Debug, PartialEq, Eq)]
pub struct ConfigError(pub String);

/// Why text is not a `u64`, as the standard library's integer parsing says.
#[derive(Clone, Copy, Debug, PartialEq, Eq, Structural)]
pub enum NumberError {
    Empty,
    InvalidDigit,
    PosOverflow,
}

pub open spec fn number_error_text(k: NumberError) -> Seq<char> {
    match k {
        NumberError::Empty => "cannot parse integer from empty string"@,
        NumberError::InvalidDigit => "invalid digit found in string"@,
        NumberError::PosOverflow => "number too large to fit in target type"@,
    }
}

pub open spec fn is_digit(c: u8) -> bool {
    0x30 <= c <= 0x39
}

/// Decimal digits, read left to right; the first non-digit, else the first overflow, fails.
pub open spec fn digits_value(d: Seq<u8>) -> Result<u64, NumberError>
    decreases d.len(),
{
    if d.len() == 0 {
        Ok(0)
    } else {
        match digits_value(d.drop_last()) {
            Err(e) => Err(e),
            Ok(v) => if !is_digit(d.last()) {
                Err(NumberError::InvalidDigit)
            } else if v * 10 + (d.last() - 0x30) > u64::MAX {
                Err(NumberError::PosOverflow)
            } else {
                Ok((v * 10 + (d.last() - 0x30)) as u64)
            },
        }
    }
}

/// An unsigned decimal: nonempty, one optional leading `+`, then digits.
pub open spec fn decimal(s: Seq<u8>) -> Result<u64, NumberError> {
    if s.len() == 0 {
        Err(NumberError::Empty)
    } else if s.len() == 1 && (s[0] == 0x2b || s[0] == 0x2d) {
        Err(NumberError::InvalidDigit)
    } else if s[0] == 0x2b {
        digits_value(s.drop_first())
    } else {
        digits_value(s)
    }
}

/// The comma-separated fields of the text, empty ones included.
pub open spec fn fields(b: Seq<u8>) -> Seq<Seq<u8>>
    decreases b.len(),
{
    if b.len() == 0 {
        seq![Seq::<u8>::empty()]
    } else {
        let f = fields(b.drop_last());
        if b.last() == 0x2c {
            f.push(Seq::empty())
        } else {
            f.update(f.len() - 1, f.last().push(b.last()))
        }
    }
}

/// Every field as a decimal, or the first field that is not one and why.
pub open spec fn parse_fields(fs: Seq<Seq<u8>>) -> Result<Seq<u64>, (Seq<u8>, NumberError)>
    decreases fs.len(),
{
    if fs.len() == 0 {
        Ok(Seq::empty())
    } else {
        match parse_fields(fs.drop_last()) {
            Err(e) => Err(e),
            Ok(vs) => match decimal(fs.last()) {
                Ok(v) => Ok(vs.push(v)),
                Err(k) => Err((fs.last(), k)),
            },
        }
    }
}

/// What Rust's debug formatting writes for a string (quoted and escaped).
pub uninterp spec fn debug_quoted_text(chars: Seq<char>) -> Seq<char>;

/// A printable ASCII character that debug formatting writes as it is.
pub open spec fn plain_ascii(c: char) -> bool {
    0x20 <= (c as u32) <= 0x7e && c != '"' && c != '\\'
}

/// `format!("{:?}", raw)` from the standard library: the string in double quotes, with quotes,
/// backslashes and non-printable characters escaped. Only the plain printable ASCII case is
/// stated in full; otherwise the result is named.
#[verifier::external_body]
fn debug_quoted(raw: &str) -> (quoted: String)
    ensures
        quoted@ == debug_quoted_text(raw@),
        (forall|i: int| 0 <= i < raw@.len() ==> plain_ascii(#[trigger] raw@[i])) ==> quoted@
            == seq!['"'] + raw@ + seq!['"'],
{
    format!("{:?}", raw)
}

pub open spec fn invalid_id_message(raw: Seq<u8>, k: NumberError) -> Seq<char> {
    "BATTLE_ROYALE_MATCH_IDS contains invalid match id "@ + debug_quoted_text(decode_utf8(raw))
        + ": "@ + number_error_text(k)
}

proof fn lemma_fields_nonempty(b: Seq<u8>)
    ensures
        fields(b).len() >= 1,
    decreases b.len(),
{
    if b.len() > 0 {
        lemma_fields_nonempty(b.drop_last());
    }
}

/// Fields completed in a prefix of the text stay as they are in any longer prefix.
proof fn lemma_fields_prefix(b: Seq<u8>, j1: int, j2: int)
    requires
        0 <= j1 <= j2 <= b.len(),
    ensures
        fields(b.take(j1)).len() <= fields(b.take(j2)).len(),
        forall|k: int|
            0 <= k < fields(b.take(j1)).len() - 1 ==> #[trigger] fields(b.take(j2))[k] == fields(
                b.take(j1),
            )[k],
    decreases j2 - j1,
{
    if j1 < j2 {
        lemma_fields_prefix(b, j1, j2 - 1);
        let t = b.take(j2);
        assert(t.drop_last() =~= b.take(j2 - 1));
        lemma_fields_nonempty(b.take(j2 - 1));
    }
}

/// A failing field fails the whole list.
proof fn lemma_parse_fields_failure(fs: Seq<Seq<u8>>, m: int)
    requires
        0 <= m <= fs.len(),
        parse_fields(fs.take(m)) is Err,
    ensures
        parse_fields(fs) == parse_fields(fs.take(m)),
    decreases fs.len() - m,
{
    if m < fs.len() {
        assert(fs.drop_last().take(m) =~= fs.take(m));
        lemma_parse_fields_failure(fs.drop_last(), m);
    } else {
        assert(fs.take(m) =~= fs);
    }
}

/// The field of the text in `start..end`, as text.
fn field_str<'a>(value: &'a str, start: usize, end: usize) -> (raw: &'a str)
    requires
        start <= end <= value.spec_bytes().len(),
        start == 0 || value.spec_bytes()[start - 1] == 0x2c,
        end == value.spec_bytes().len() || value.spec_bytes()[end as int] == 0x2c,
    ensures
        raw.spec_bytes() == value.spec_bytes().subrange(start as int, end as int),
{
    let ghost b = value.spec_bytes();
    proof {
        encode_utf8_valid_utf8(value@);
        is_char_boundary_start_end_of_seq(b);
        if end < b.len() {
            is_char_boundary_iff_not_is_continuation_byte(b, end as int);
        }
    }
    let (left, _) = value.split_at(end);
    proof {
        let l = left.spec_bytes();
        valid_utf8_split(b, end as int);
        assert(l == b.subrange(0, end as int));
        is_char_boundary_start_end_of_seq(l);
        if 0 < start && start < end {
            lemma_after_ascii_not_continuation(b, start - 1);
            assert(l[start as int] == b[start as int]);
            is_char_boundary_iff_not_is_continuation_byte(l, start as int);
        }
    }
    let (_, raw) = left.split_at(start);
    proof {
        assert(raw.spec_bytes() =~= b.subrange(start as int, end as int));
    }
    raw
}

/// Parse a decimal from `b[start..end]`.
fn parse_decimal(b: &[u8], start: usize, end: usize) -> (r: Result<u64, NumberError>)
    requires
        start <= end <= b@.len(),
    ensures
        r == decimal(b@.subrange(start as int, end as int)),
{
    let ghost s = b@.subrange(start as int, end as int);
    if start == end {
        return Err(NumberError::Empty);
    }
    if end - start == 1 && (b[start] == 0x2b || b[start] == 0x2d) {
        return Err(NumberError::InvalidDigit);
    }
    let first: usize = if b[start] == 0x2b { start + 1 } else { start };
    let ghost d = b@.subrange(first as int, end as int);
    proof {
        if b[start as int] == 0x2b {
            assert(s.drop_first() =~= d);
        } else {
            assert(s =~= d);
        }
    }
    let mut value: u64 = 0;
    let mut k: usize = first;
    assert(b@.subrange(first as int, first as int) =~= Seq::<u8>::empty());
    while k < end
        invariant
            first <= k <= end <= b@.len(),
            digits_value(b@.subrange(first as int, k as int)) == Ok::<u64, NumberError>(value),
            d == b@.subrange(first as int, end as int),
            decimal(b@.subrange(start as int, end as int)) == digits_value(d),
        decreases end - k,
    {
        let c = b[k];
        proof {
            assert(b@.subrange(first as int, k + 1).drop_last() =~= b@.subrange(first as int, k as int));
        }
        if !(0x30 <= c && c <= 0x39) {
            proof {
                assert(d.take((k + 1 - first) as int) =~= b@.subrange(first as int, k + 1));
                lemma_digits_failure(d, (k + 1 - first) as int);
            }
            return Err(NumberError::InvalidDigit);
        }
        let next = match value.checked_mul(10) {
            Some(m) => m.checked_add((c - 0x30) as u64),
            None => None,
        };
        match next {
            Some(v) => {
                value = v;
            },
            None => {
                proof {
                    assert(d.take((k + 1 - first) as int) =~= b@.subrange(first as int, k + 1));
                    lemma_digits_failure(d, (k + 1 - first) as int);
                }
                return Err(NumberError::PosOverflow);
            },
        }
        k = k + 1;
    }
    assert(b@.subrange(first as int, k as int) =~= d);
    Ok(value)
}

/// A failing prefix of the digits fails them all.
proof fn lemma_digits_failure(d: Seq<u8>, m: int)
    requires
        0 <= m <= d.len(),
        digits_value(d.take(m)) is Err,
    ensures
        digits_value(d) == digits_value(d.take(m)),
    decreases d.len() - m,
{
    if m < d.len() {
        assert(d.drop_last().take(m) =~= d.take(m));
        lemma_digits_failure(d.drop_last(), m);
    } else {
        assert(d.take(m) =~= d);
    }
}

fn number_error_message(k: NumberError) -> (text: &'static str)
    ensures
        text@ == number_error_text(k),
{
    match k {
        NumberError::Empty => "cannot parse integer from empty string",
        NumberError::InvalidDigit => "invalid digit found in string",
        NumberError::PosOverflow => "number too large to fit in target type",
    }
}

fn invalid_match_id(value: &str, start: usize, end: usize, k: NumberError) -> (e: ConfigError)
    requires
        start <= end <= value.spec_bytes().len(),
        start == 0 || value.spec_bytes()[start - 1] == 0x2c,
        end == value.spec_bytes().len() || value.spec_bytes()[end as int] == 0x2c,
    ensures
        e.0@ == invalid_id_message(value.spec_bytes().subrange(start as int, end as int), k),
{
    let raw = field_str(value, start, end);
    proof {
        encode_utf8_decode_utf8(raw@);
    }
    let quoted = debug_quoted(raw);
    let mut message = String::from_str("BATTLE_ROYALE_MATCH_IDS contains invalid match id ");
    message.append(quoted.as_str());
    message.append(": ");
    message.append(number_error_message(k));
    ConfigError(message)
}

/// Match ids as the host reads them: a nonempty comma-separated list of unsigned decimals.
pub open spec fn match_ids_parsing(b: Seq<u8>) -> Result<Seq<u64>, (Seq<u8>, NumberError)> {
    parse_fields(fields(b))
}

/// Parse the configured match ids, in order.
pub fn parse_match_ids(value: &str) -> (r: Result<Vec<BattleMatchId>, ConfigError>)
    ensures
        value@.len() == 0 ==> r is Err && r->Err_0.0@ == "BATTLE_ROYALE_MATCH_IDS must not be empty"@,
        value@.len() > 0 ==> match match_ids_parsing(value.spec_bytes()) {
            Ok(ids) => r is Ok && r->Ok_0@.len() == ids.len() && forall|i: int|
                0 <= i < ids.len() ==> (#[trigger] r->Ok_0@[i]).value() == ids[i],
            Err((raw, k)) => r is Err && r->Err_0.0@ == invalid_id_message(raw, k),
        },
{
    if value.is_empty() {
        return Err(ConfigError(String::from_str("BATTLE_ROYALE_MATCH_IDS must not be empty")));
    }
    let bytes = value.as_bytes();
    let ghost b = bytes@;
    let mut ids: Vec<BattleMatchId> = Vec::new();
    let ghost mut done: Seq<Seq<u8>> = Seq::empty();
    let ghost mut vals: Seq<u64> = Seq::empty();
    let mut start: usize = 0;
    let mut i: usize = 0;
    assert(b.take(0) =~= Seq::<u8>::empty());
    assert(b.subrange(0, 0) =~= Seq::<u8>::empty());
    assert(fields(b.take(0)) =~= done.push(b.subrange(0, 0)));
    while i < bytes.len()
        invariant
            b == bytes@,
            b == value.spec_bytes(),
            start <= i <= b.len(),
            start == 0 || b[start - 1] == 0x2c,
            fields(b.take(i as int)) == done.push(b.subrange(start as int, i as int)),
            parse_fields(done) == Ok::<Seq<u64>, (Seq<u8>, NumberError)>(vals),
            ids@.len() == vals.len(),
            forall|j: int| 0 <= j < vals.len() ==> (#[trigger] ids@[j]).value() == vals[j],
        decreases bytes.len() - i,
    {
        proof {
            assert(b.take(i + 1).drop_last() =~= b.take(i as int));
            assert(b.take(i + 1).last() == b[i as int]);
        }
        if bytes[i] == 0x2c {
            let ghost field = b.subrange(start as int, i as int);
            match parse_decimal(bytes, start, i) {
                Ok(v) => {
                    ids.push(BattleMatchId::new(v));
                    proof {
                        assert(done.push(field).drop_last() =~= done);
                        done = done.push(field);
                        vals = vals.push(v);
                        assert(b.subrange(i + 1, i + 1) =~= Seq::<u8>::empty());
                        assert(fields(b.take(i + 1)) =~= done.push(b.subrange(i + 1, i + 1)));
                    }
                    start = i + 1;
                },
                Err(k) => {
                    proof {
                        let fs = fields(b);
                        let f1 = fields(b.take(i + 1));
                        assert(f1 =~= done.push(field).push(Seq::empty()));
                        lemma_fields_prefix(b, i + 1, b.len() as int);
                        assert(b.take(b.len() as int) =~= b);
                        assert(fs.take(done.len() + 1int) =~= done.push(field));
                        assert(done.push(field).drop_last() =~= done);
                        lemma_parse_fields_failure(fs, done.len() + 1int);
                    }
                    return Err(invalid_match_id(value, start, i, k));
                },
            }
        } else {
            proof {
                let f = fields(b.take(i as int));
                assert(b.subrange(start as int, i + 1) =~= b.subrange(start as int, i as int).push(b[i as int]));
                assert(fields(b.take(i + 1)) =~= done.push(b.subrange(start as int, i + 1)));
            }
        }
        i = i + 1;
    }
    proof {
        assert(b.take(b.len() as int) =~= b);
        assert(done.push(b.subrange(start as int, b.len() as int)).drop_last() =~= done);
    }
    match parse_decimal(bytes, start, bytes.len()) {
        Ok(v) => {
            ids.push(BattleMatchId::new(v));
            Ok(ids)
        },
        Err(k) => Err(invalid_match_id(value, start, bytes.len(), k)),
    }
}

} // verus!
