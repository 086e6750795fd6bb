//! The wire format of price attestations.
//!
//! A message is `nonce|symbol|price|timestamp`: three unsigned decimal
//! integers that fit in 64 bits around a non-empty asset symbol. A batch is
//! a comma-separated list of messages.
use vstd::prelude::*;

verus! {

/// Separator between the fields of one message.
pub const FIELD_SEPARATOR: char = '|';

/// Separator between the messages of a batch.
pub const MESSAGE_SEPARATOR: char = ',';

/// The pieces of `s` between occurrences of `sep`, in order; an empty `s`
/// is one empty piece.
pub open spec fn split_on(s: Seq<char>, sep: char) -> Seq<Seq<char>>
    decreases s.len(),
{
    if s.len() == 0 {
        seq![Seq::<char>::empty()]
    } else {
        let init = split_on(s.drop_last(), sep);
        if s.last() == sep {
            init.push(Seq::<char>::empty())
        } else {
            init.update(init.len() - 1, init.last().push(s.last()))
        }
    }
}

pub open spec fn is_digit(c: char) -> bool {
    '0' <= c && c <= '9'
}

pub open spec fn digit_value(c: char) -> nat {
    (c as u32 - '0' as u32) as nat
}

/// The number that a string of decimal digits denotes.
pub open spec fn decimal_value(s: Seq<char>) -> nat
    decreases s.len(),
{
    if s.len() == 0 {
        0
    } else {
        decimal_value(s.drop_last()) * 10 + digit_value(s.last())
    }
}

/// `s` is one or more decimal digits whose value fits in a `u64`.
pub open spec fn is_decimal_u64(s: Seq<char>) -> bool {
    &&& s.len() > 0
    &&& forall|i: int| 0 <= i < s.len() ==> is_digit(#[trigger] s[i])
    &&& decimal_value(s) <= u64::MAX
}

/// Splits `s` at every occurrence of `sep`.
pub fn split_fields<'a>(s: &'a str, sep: char) -> (r: Vec<&'a str>)
    ensures
        r@.len() == split_on(s@, sep).len(),
        forall|k: int| 0 <= k < r@.len() ==> (#[trigger] r@[k])@ == split_on(s@, sep)[k],
{
    let n = s.unicode_len();
    let mut out: Vec<&'a str> = Vec::new();
    let mut start: usize = 0;
    let mut i: usize = 0;
    while i < n
        invariant
            n == s@.len(),
            start <= i <= n,
            out@.len() + 1 == split_on(s@.take(i as int), sep).len(),
            forall|k: int|
                0 <= k < out@.len() ==> (#[trigger] out@[k])@ == split_on(s@.take(i as int), sep)[k],
            split_on(s@.take(i as int), sep).last() == s@.subrange(start as int, i as int),
        decreases n - i,
    {
        let c = s.get_char(i);
        proof {
            assert(s@.take(i + 1).drop_last() =~= s@.take(i as int));
            assert(s@.subrange(start as int, i as int).push(c) =~= s@.subrange(
                start as int,
                i + 1,
            ));
        }
        if c == sep {
            out.push(s.substring_char(start, i));
            start = i + 1;
        }
        i = i + 1;
    }
    out.push(s.substring_char(start, n));
    proof {
        assert(s@.take(n as int) =~= s@);
    }
    out
}

proof fn lemma_decimal_monotone(s: Seq<char>, i: int)
    requires
        0 <= i <= s.len(),
    ensures
        decimal_value(s.take(i)) <= decimal_value(s),
    decreases s.len(),
{
    if i < s.len() {
        assert(s.drop_last().take(i) =~= s.take(i));
        lemma_decimal_monotone(s.drop_last(), i);
    } else {
        assert(s.take(i) =~= s);
    }
}

/// Reads an unsigned decimal integer that fits in a `u64`.
pub fn parse_u64(s: &str) -> (r: Option<u64>)
    ensures
        r == (if is_decimal_u64(s@) {
            Some(decimal_value(s@) as u64)
        } else {
            None::<u64>
        }),
{
    let n = s.unicode_len();
    if n == 0 {
        return None;
    }
    let mut acc: u64 = 0;
    let mut i: usize = 0;
    while i < n
        invariant
            n == s@.len(),
            i <= n,
            acc as nat == decimal_value(s@.take(i as int)),
            forall|j: int| 0 <= j < i ==> is_digit(#[trigger] s@[j]),
        decreases n - i,
    {
        let c = s.get_char(i);
        proof {
            assert(s@.take(i + 1).drop_last() =~= s@.take(i as int));
        }
        if !('0' <= c && c <= '9') {
            return None;
        }
        let d = (c as u32 - '0' as u32) as u64;
        if acc > (u64::MAX - d) / 10 {
            proof {
                lemma_decimal_monotone(s@, i + 1);
            }
            return None;
        }
        acc = acc * 10 + d;
        i = i + 1;
    }
    proof {
        assert(s@.take(n as int) =~= s@);
    }
    Some(acc)
}

/// One attested price point.
#[derive(Debug, Clone, PartialEq, Eq)]
pub struct PriceMessage {
    pub nonce: u64,
    pub symbol: String,
    pub price: u64,
    pub timestamp: u64,
}

/// The mathematical value of a [`PriceMessage`].
pub struct PriceRecord {
    pub nonce: u64,
    pub symbol: Seq<char>,
    pub price: u64,
    pub timestamp: u64,
}

impl View for PriceMessage {
    type V = PriceRecord;

    open spec fn view(&self) -> PriceRecord {
        PriceRecord {
            nonce: self.nonce,
            symbol: self.symbol@,
            price: self.price,
            timestamp: self.timestamp,
        }
    }
}

/// The record that the message `s` encodes, if it is well formed.
pub open spec fn parse_message(s: Seq<char>) -> Option<PriceRecord> {
    let f = split_on(s, FIELD_SEPARATOR);
    if f.len() == 4 && is_decimal_u64(f[0]) && f[1].len() > 0 && is_decimal_u64(f[2])
        && is_decimal_u64(f[3]) {
        Some(
            PriceRecord {
                nonce: decimal_value(f[0]) as u64,
                symbol: f[1],
                price: decimal_value(f[2]) as u64,
                timestamp: decimal_value(f[3]) as u64,
            },
        )
    } else {
        None
    }
}

/// The records of the batch `s`, if every one of its messages is well formed.
pub open spec fn parse_batch(s: Seq<char>) -> Option<Seq<PriceRecord>> {
    let parts = split_on(s, MESSAGE_SEPARATOR);
    if forall|i: int| 0 <= i < parts.len() ==> (#[trigger] parse_message(parts[i])).is_some() {
        Some(parts.map_values(|p: Seq<char>| parse_message(p).unwrap()))
    } else {
        None
    }
}

/// The views of a sequence of messages.
pub open spec fn records_of(v: Seq<PriceMessage>) -> Seq<PriceRecord> {
    v.map_values(|m: PriceMessage| m@)
}

/// Parses one message; `None` when it is malformed.
pub fn parse_price_message(s: &str) -> (r: Option<PriceMessage>)
    ensures
        match r {
            Some(m) => parse_message(s@) == Some(m@),
            None => parse_message(s@).is_none(),
        },
{
    let fields = split_fields(s, FIELD_SEPARATOR);
    if fields.len() != 4 {
        return None;
    }
    let nonce = match parse_u64(fields[0]) {
        Some(v) => v,
        None => return None,
    };
    let symbol = fields[1];
    if symbol.unicode_len() == 0 {
        return None;
    }
    let price = match parse_u64(fields[2]) {
        Some(v) => v,
        None => return None,
    };
    let timestamp = match parse_u64(fields[3]) {
        Some(v) => v,
        None => return None,
    };
    Some(PriceMessage { nonce, symbol: symbol.to_owned(), price, timestamp })
}

/// Parses a comma-separated batch; `None` when any message in it is
/// malformed.
pub fn parse_price_batch(s: &str) -> (r: Option<Vec<PriceMessage>>)
    ensures
        match r {
            Some(v) => parse_batch(s@) == Some(records_of(v@)),
            None => parse_batch(s@).is_none(),
        },
{
    let parts = split_fields(s, MESSAGE_SEPARATOR);
    let ghost pieces = split_on(s@, MESSAGE_SEPARATOR);
    let mut out: Vec<PriceMessage> = Vec::new();
    let mut i: usize = 0;
    while i < parts.len()
        invariant
            pieces == split_on(s@, MESSAGE_SEPARATOR),
            parts@.len() == pieces.len(),
            forall|k: int| 0 <= k < parts@.len() ==> (#[trigger] parts@[k])@ == pieces[k],
            i <= parts@.len(),
            out@.len() == i,
            forall|k: int|
                0 <= k < i ==> #[trigger] parse_message(pieces[k]) == Some(out@[k]@),
        decreases parts@.len() - i,
    {
        match parse_price_message(parts[i]) {
            Some(m) => out.push(m),
            None => {
                proof {
                    assert(parse_message(pieces[i as int]).is_none());
                }
                return None;
            },
        }
        i = i + 1;
    }
    proof {
        assert(forall|k: int|
            0 <= k < pieces.len() ==> (#[trigger] parse_message(pieces[k])).is_some());
        assert(records_of(out@) =~= pieces.map_values(
            |p: Seq<char>| parse_message(p).unwrap(),
        ));
    }
    Some(out)
}

/// The character of the decimal digit `d`.
pub open spec fn digit_char(d: nat) -> char {
    seq!['0', '1', '2', '3', '4', '5', '6', '7', '8', '9'][d as int]
}

/// The shortest decimal text of `n`.
pub open spec fn decimal_text(n: nat) -> Seq<char>
    decreases n,
{
    if n < 10 {
        seq![digit_char(n)]
    } else {
        decimal_text(n / 10).push(digit_char(n % 10))
    }
}

/// The wire text of the record `r`.
pub open spec fn encode_message(r: PriceRecord) -> Seq<char> {
    decimal_text(r.nonce as nat) + seq![FIELD_SEPARATOR] + r.symbol + seq![FIELD_SEPARATOR]
        + decimal_text(r.price as nat) + seq![FIELD_SEPARATOR] + decimal_text(r.timestamp as nat)
}

proof fn lemma_digit_char(d: nat)
    requires
        d < 10,
    ensures
        is_digit(digit_char(d)),
        digit_value(digit_char(d)) == d,
{
    let ds = seq!['0', '1', '2', '3', '4', '5', '6', '7', '8', '9'];
    assert(ds[0] == '0' && ds[1] == '1' && ds[2] == '2' && ds[3] == '3' && ds[4] == '4');
    assert(ds[5] == '5' && ds[6] == '6' && ds[7] == '7' && ds[8] == '8' && ds[9] == '9');
}

proof fn lemma_decimal_text(n: nat)
    ensures
        decimal_text(n).len() > 0,
        forall|i: int| 0 <= i < decimal_text(n).len() ==> is_digit(#[trigger] decimal_text(n)[i]),
        decimal_value(decimal_text(n)) == n,
    decreases n,
{
    if n < 10 {
        lemma_digit_char(n);
        assert(decimal_text(n).drop_last() =~= Seq::<char>::empty());
        assert(decimal_text(n).last() == digit_char(n));
        assert(decimal_value(decimal_text(n)) == decimal_value(Seq::<char>::empty()) * 10
            + digit_value(digit_char(n)));
    } else {
        lemma_digit_char(n % 10);
        lemma_decimal_text(n / 10);
        let t = decimal_text(n / 10);
        assert(decimal_text(n).drop_last() =~= t);
        assert(forall|i: int| 0 <= i < t.len() ==> decimal_text(n)[i] == t[i]);
        assert(decimal_text(n).last() == digit_char(n % 10));
        assert(n == (n / 10) * 10 + n % 10);
        assert(decimal_value(decimal_text(n)) == decimal_value(t) * 10 + digit_value(
            digit_char(n % 10),
        ));
    }
}

proof fn lemma_split_without_separator(a: Seq<char>, sep: char)
    requires
        !a.contains(sep),
    ensures
        split_on(a, sep) == seq![a],
    decreases a.len(),
{
    if a.len() > 0 {
        assert(!a.drop_last().contains(sep)) by {
            if a.drop_last().contains(sep) {
                let k = choose|k: int| 0 <= k < a.drop_last().len() && a.drop_last()[k] == sep;
                assert(a[k] == sep);
            }
        }
        lemma_split_without_separator(a.drop_last(), sep);
        assert(a.last() != sep) by {
            assert(a[a.len() - 1] == a.last());
        }
        assert(a.drop_last().push(a.last()) =~= a);
        assert(split_on(a, sep) =~= seq![a]);
    } else {
        assert(a =~= Seq::<char>::empty());
    }
}

proof fn lemma_split_append(x: Seq<char>, y: Seq<char>, sep: char)
    requires
        !y.contains(sep),
    ensures
        split_on(x + seq![sep] + y, sep) == split_on(x, sep).push(y),
    decreases y.len(),
{
    let s = x + seq![sep] + y;
    if y.len() == 0 {
        assert(s.drop_last() =~= x);
        assert(s.last() == sep);
        assert(y =~= Seq::<char>::empty());
    } else {
        assert(!y.drop_last().contains(sep)) by {
            if y.drop_last().contains(sep) {
                let k = choose|k: int| 0 <= k < y.drop_last().len() && y.drop_last()[k] == sep;
                assert(y[k] == sep);
            }
        }
        lemma_split_append(x, y.drop_last(), sep);
        assert(s.drop_last() =~= x + seq![sep] + y.drop_last());
        assert(s.last() == y[y.len() - 1]);
        assert(y.drop_last().push(y.last()) =~= y);
        assert(split_on(s, sep) =~= split_on(x, sep).push(y));
    }
}

proof fn lemma_digits_lack(t: Seq<char>, c: char)
    requires
        forall|i: int| 0 <= i < t.len() ==> is_digit(#[trigger] t[i]),
        !is_digit(c),
    ensures
        !t.contains(c),
{
    if t.contains(c) {
        let k = choose|k: int| 0 <= k < t.len() && t[k] == c;
        assert(is_digit(t[k]));
    }
}

/// Parsing the wire text of a record gives back exactly that record, for
/// every record whose symbol is non-empty and free of the field separator.
pub proof fn lemma_parse_round_trip(r: PriceRecord)
    requires
        r.symbol.len() > 0,
        !r.symbol.contains(FIELD_SEPARATOR),
    ensures
        parse_message(encode_message(r)) == Some(r),
{
    let n = decimal_text(r.nonce as nat);
    let p = decimal_text(r.price as nat);
    let t = decimal_text(r.timestamp as nat);
    let sep = FIELD_SEPARATOR;
    lemma_decimal_text(r.nonce as nat);
    lemma_decimal_text(r.price as nat);
    lemma_decimal_text(r.timestamp as nat);
    lemma_digits_lack(n, sep);
    lemma_digits_lack(p, sep);
    lemma_digits_lack(t, sep);
    lemma_split_without_separator(n, sep);
    lemma_split_append(n, r.symbol, sep);
    lemma_split_append(n + seq![sep] + r.symbol, p, sep);
    lemma_split_append(n + seq![sep] + r.symbol + seq![sep] + p, t, sep);
    let f = split_on(encode_message(r), sep);
    assert(f =~= seq![n, r.symbol, p, t]);
    assert(f[0] == n && f[1] == r.symbol && f[2] == p && f[3] == t);
}

/// A message whose nonce field holds a character that is not a decimal
/// digit is malformed.
pub proof fn lemma_non_numeric_nonce_rejected(s: Seq<char>, i: int)
    requires
        0 <= i < split_on(s, FIELD_SEPARATOR)[0].len(),
        !is_digit(split_on(s, FIELD_SEPARATOR)[0][i]),
    ensures
        parse_message(s).is_none(),
{
}

} // verus!
