//! Bridge payload codec: a canonical JSON encoding of an order, written and
//! parsed by the library itself so that both directions carry contracts.
//!
//! Numbers are bare decimals; strings are quoted with `"` and `\` escaped by
//! a backslash; the optional secret is `null` or a quoted string; the status
//! is one of five fixed words. Keys appear in a fixed order, so the decoder
//! is a straight-line recursive-descent parser.

use vstd::prelude::*;
use vstd::seq_lib::lemma_concat_associative;
use vstd::string::StrSliceExecFns;
use vstd::string::StringExecFns;
use crate::types::CrossChainOrder;
use crate::types::OrderModel;
use crate::types::OrderStatus;

verus! {

/// Relies on std's String::push: appends the character at the end.
#[verifier::external_body]
pub(crate) fn push_char(s: &mut String, c: char)
    ensures
        final(s)@ == old(s)@.push(c),
{
    s.push(c);
}

pub open spec fn digit_char(d: int) -> char {
    if d == 0 {
        '0'
    } else if d == 1 {
        '1'
    } else if d == 2 {
        '2'
    } else if d == 3 {
        '3'
    } else if d == 4 {
        '4'
    } else if d == 5 {
        '5'
    } else if d == 6 {
        '6'
    } else if d == 7 {
        '7'
    } else if d == 8 {
        '8'
    } else {
        '9'
    }
}

/// Value of a decimal digit character; 10 for any other character.
pub open spec fn digit_val(c: char) -> int {
    if c == '0' {
        0
    } else if c == '1' {
        1
    } else if c == '2' {
        2
    } else if c == '3' {
        3
    } else if c == '4' {
        4
    } else if c == '5' {
        5
    } else if c == '6' {
        6
    } else if c == '7' {
        7
    } else if c == '8' {
        8
    } else if c == '9' {
        9
    } else {
        10
    }
}

pub open spec fn is_digit_char(c: char) -> bool {
    digit_val(c) < 10
}

/// Decimal digits of `n`, most significant first, no leading zeros
/// (a single `0` for zero).
pub open spec fn dec_digits(n: nat) -> Seq<char>
    decreases n,
{
    if n < 10 {
        seq![digit_char(n as int)]
    } else {
        dec_digits(n / 10).push(digit_char((n % 10) as int))
    }
}

pub proof fn lemma_dec_digits_are_digits(n: nat)
    ensures
        dec_digits(n).len() >= 1,
        forall|i: int|
            0 <= i < dec_digits(n).len() ==> is_digit_char(#[trigger] dec_digits(n)[i]),
    decreases n,
{
    if n >= 10 {
        lemma_dec_digits_are_digits(n / 10);
    }
}

fn exec_digit_char(d: u128) -> (c: char)
    requires
        d < 10,
    ensures
        c == digit_char(d as int),
{
    if d == 0 {
        '0'
    } else if d == 1 {
        '1'
    } else if d == 2 {
        '2'
    } else if d == 3 {
        '3'
    } else if d == 4 {
        '4'
    } else if d == 5 {
        '5'
    } else if d == 6 {
        '6'
    } else if d == 7 {
        '7'
    } else if d == 8 {
        '8'
    } else {
        '9'
    }
}

/// Decimal rendering of an unsigned 128-bit value.
pub fn u128_to_dec(n: u128) -> (s: String)
    ensures
        s@ == dec_digits(n as nat),
    decreases n,
{
    if n < 10 {
        let mut s = String::new();
        push_char(&mut s, exec_digit_char(n));
        s
    } else {
        let mut s = u128_to_dec(n / 10);
        push_char(&mut s, exec_digit_char(n % 10));
        s
    }
}

/// Decimal rendering of an unsigned 64-bit value.
pub fn u64_to_dec(n: u64) -> (s: String)
    ensures
        s@ == dec_digits(n as nat),
{
    u128_to_dec(n as u128)
}

/// A character as it appears inside a quoted string: `"` and `\` carry a
/// backslash escape, everything else stands for itself.
pub open spec fn esc_char(c: char) -> Seq<char> {
    if c == '"' || c == '\\' {
        seq!['\\', c]
    } else {
        seq![c]
    }
}

/// A character sequence with its quote and backslash characters escaped.
pub open spec fn esc(s: Seq<char>) -> Seq<char>
    decreases s.len(),
{
    if s.len() == 0 {
        Seq::<char>::empty()
    } else {
        esc_char(s[0]) + esc(s.skip(1))
    }
}

pub proof fn lemma_esc_append(a: Seq<char>, b: Seq<char>)
    ensures
        esc(a + b) == esc(a) + esc(b),
    decreases a.len(),
{
    if a.len() == 0 {
        assert(a + b =~= b);
        assert(esc(a) + esc(b) =~= esc(b));
    } else {
        lemma_esc_append(a.skip(1), b);
        assert((a + b).skip(1) =~= a.skip(1) + b);
        assert(esc_char((a + b)[0]) + (esc(a.skip(1)) + esc(b)) =~= (esc_char(a[0]) + esc(
            a.skip(1),
        )) + esc(b));
    }
}

/// Appends `s` to `out` with quote and backslash characters escaped.
fn append_escaped(out: &mut String, s: &str)
    ensures
        final(out)@ == old(out)@ + esc(s@),
{
    let n = s.unicode_len();
    let mut i: usize = 0;
    while i < n
        invariant
            n == s@.len(),
            i <= n,
            out@ == old(out)@ + esc(s@.take(i as int)),
        decreases n - i,
    {
        let c = s.get_char(i);
        if c == '"' || c == '\\' {
            push_char(out, '\\');
            push_char(out, c);
        } else {
            push_char(out, c);
        }
        proof {
            let ghost c0 = s@[i as int];
            let ghost one = seq![c0];
            lemma_esc_append(s@.take(i as int), one);
            assert(s@.take(i + 1) =~= s@.take(i as int) + one);
            assert(one.skip(1) =~= Seq::<char>::empty());
            assert(esc(one.skip(1)) =~= Seq::<char>::empty());
            assert(esc(one) =~= esc_char(c0) + esc(one.skip(1)));
            assert(esc(one) =~= esc_char(c0));
            assert(out@ =~= old(out)@ + esc(s@.take(i + 1)));
        }
        i = i + 1;
    }
    proof {
        assert(s@.take(n as int) =~= s@);
    }
}

/// The status word of the encoding.
pub open spec fn status_chars(status: OrderStatus) -> Seq<char> {
    match status {
        OrderStatus::Active => "Active"@,
        OrderStatus::Locked => "Locked"@,
        OrderStatus::Completed => "Completed"@,
        OrderStatus::Expired => "Expired"@,
        OrderStatus::Cancelled => "Cancelled"@,
    }
}

/// The secret field of the encoding: `null`, or the escaped secret quoted.
pub open spec fn secret_chars(secret: Option<Seq<char>>) -> Seq<char> {
    match secret {
        Option::None => "null"@,
        Option::Some(s) => seq!['"'] + esc(s) + seq!['"'],
    }
}

/// The canonical encoding of an order: one JSON object with the fields in a
/// fixed order.
pub open spec fn enc_order(o: OrderModel) -> Seq<char> {
    "{\"order_id\":"@ + dec_digits(o.order_id as nat) + ",\"maker\":\""@ + esc(o.maker) + "\""@
        + ",\"token_in\":\""@ + esc(o.token_in) + "\""@ + ",\"token_out\":\""@ + esc(o.token_out)
        + "\""@ + ",\"amount_in\":"@ + dec_digits(o.amount_in as nat) + ",\"base_price\":"@
        + dec_digits(o.base_price as nat) + ",\"current_slippage\":"@ + dec_digits(
        o.current_slippage as nat,
    ) + ",\"max_slippage_deviation\":"@ + dec_digits(o.max_slippage_deviation as nat)
        + ",\"target_chain_id\":"@ + dec_digits(o.target_chain_id as nat) + ",\"hashlock\":\""@
        + esc(o.hashlock) + "\""@ + ",\"timelock\":"@ + dec_digits(o.timelock as nat)
        + ",\"secret\":"@ + secret_chars(o.secret) + ",\"status\":\""@ + status_chars(o.status)
        + "\""@ + ",\"created_at\":"@ + dec_digits(o.created_at as nat)
        + ",\"last_slippage_update\":"@ + dec_digits(o.last_slippage_update as nat)
        + ",\"fill_attempts\":"@ + dec_digits(o.fill_attempts as nat) + "}"@
}

/// `s` holds `p` starting at position `i`.
pub open spec fn starts_at(s: Seq<char>, i: int, p: Seq<char>) -> bool {
    0 <= i && i + p.len() <= s.len() && s.subrange(i, i + p.len()) == p
}

pub proof fn lemma_starts_at_split(s: Seq<char>, i: int, a: Seq<char>, b: Seq<char>)
    requires
        starts_at(s, i, a + b),
    ensures
        starts_at(s, i, a),
        starts_at(s, i + a.len(), b),
{
    assert(s.subrange(i, i + a.len()) =~= a) by {
        assert forall|t: int| 0 <= t < a.len() implies s.subrange(i, i + a.len())[t] == a[t] by {
            assert(s.subrange(i, i + (a + b).len())[t] == (a + b)[t]);
        }
    }
    assert(s.subrange(i + a.len(), i + a.len() + b.len()) =~= b) by {
        assert forall|t: int|
            0 <= t < b.len() implies s.subrange(i + a.len(), i + a.len() + b.len())[t]
            == b[t] by {
            assert(s.subrange(i, i + (a + b).len())[a.len() + t] == (a + b)[a.len() + t]);
        }
    }
}

/// A literal at position `i`: the position just past it, or nothing.
pub open spec fn parse_lit(s: Seq<char>, i: int, lit: Seq<char>) -> Option<int> {
    if starts_at(s, i, lit) {
        Some(i + lit.len() as int)
    } else {
        None
    }
}

/// The end of the run of decimal digits starting at `i`.
pub open spec fn num_end(s: Seq<char>, i: int) -> int
    decreases s.len() - i when 0 <= i <= s.len()
{
    if i < s.len() && is_digit_char(s[i]) {
        num_end(s, i + 1)
    } else {
        i
    }
}

/// The value of a run of decimal digits.
pub open spec fn parse_val(d: Seq<char>) -> nat
    decreases d.len(),
{
    if d.len() == 0 {
        0
    } else {
        (parse_val(d.drop_last()) * 10 + digit_val(d.last())) as nat
    }
}

/// A number at position `i`: its value and the position past its digits,
/// or nothing if no digit stands at `i`.
pub open spec fn parse_num(s: Seq<char>, i: int) -> Option<(nat, int)> {
    if 0 <= i <= s.len() {
        let e = num_end(s, i);
        if e == i {
            None
        } else {
            Some((parse_val(s.subrange(i, e)), e))
        }
    } else {
        None
    }
}

/// The body of a quoted string starting at `i` (just past the opening
/// quote): the unescaped content and the position past the closing quote.
pub open spec fn parse_string_body(s: Seq<char>, i: int) -> Option<(Seq<char>, int)>
    decreases s.len() - i when 0 <= i <= s.len()
{
    if i >= s.len() {
        None
    } else if s[i] == '"' {
        Some((Seq::<char>::empty(), i + 1))
    } else if s[i] == '\\' {
        if i + 1 < s.len() {
            match parse_string_body(s, i + 2) {
                Some(r) => Some((seq![s[i + 1]] + r.0, r.1)),
                None => None,
            }
        } else {
            None
        }
    } else {
        match parse_string_body(s, i + 1) {
            Some(r) => Some((seq![s[i]] + r.0, r.1)),
            None => None,
        }
    }
}

pub proof fn lemma_parse_val_of_dec(n: nat)
    ensures
        parse_val(dec_digits(n)) == n,
    decreases n,
{
    if n < 10 {
        assert(dec_digits(n) =~= seq![digit_char(n as int)]);
        assert(dec_digits(n).drop_last() =~= Seq::<char>::empty());
        assert(parse_val(Seq::<char>::empty()) == 0);
        assert(dec_digits(n).last() == digit_char(n as int));
        assert(digit_val(digit_char(n as int)) == n);
    } else {
        lemma_parse_val_of_dec(n / 10);
        assert(dec_digits(n).drop_last() =~= dec_digits(n / 10));
        assert(dec_digits(n).last() == digit_char((n % 10) as int));
        assert(digit_val(digit_char((n % 10) as int)) == n % 10);
        assert(parse_val(dec_digits(n)) == (n / 10) * 10 + n % 10);
        assert(n == (n / 10) * 10 + n % 10) by (nonlinear_arith);
    }
}

pub proof fn lemma_num_end_of_digits(s: Seq<char>, i: int, d: Seq<char>)
    requires
        starts_at(s, i, d),
        forall|t: int| 0 <= t < d.len() ==> is_digit_char(#[trigger] d[t]),
        i + d.len() == s.len() || !is_digit_char(s[i + d.len()]),
    ensures
        num_end(s, i) == i + d.len(),
    decreases d.len(),
{
    if d.len() == 0 {
    } else {
        assert(s[i] == s.subrange(i, i + d.len())[0]);
        assert(is_digit_char(s[i]));
        assert(seq![d[0]] + d.skip(1) =~= d);
        lemma_starts_at_split(s, i, seq![d[0]], d.skip(1));
        assert(forall|t: int| 0 <= t < d.skip(1).len() ==> (#[trigger] d.skip(1)[t]) == d[t + 1]);
        lemma_num_end_of_digits(s, i + 1, d.skip(1));
    }
}

/// Completeness of the number parser on an encoded number followed by a
/// non-digit (or the end of the input).
pub proof fn lemma_parse_num_complete(s: Seq<char>, i: int, n: nat)
    requires
        starts_at(s, i, dec_digits(n)),
        i + dec_digits(n).len() == s.len() || !is_digit_char(s[i + dec_digits(n).len()]),
    ensures
        parse_num(s, i) == Some((n, i + dec_digits(n).len() as int)),
{
    lemma_dec_digits_are_digits(n);
    lemma_num_end_of_digits(s, i, dec_digits(n));
    assert(s.subrange(i, i + dec_digits(n).len()) == dec_digits(n));
    lemma_parse_val_of_dec(n);
}

/// Completeness of the string parser on an escaped body followed by its
/// closing quote.
pub proof fn lemma_parse_string_complete(s: Seq<char>, i: int, t: Seq<char>)
    requires
        starts_at(s, i, esc(t).push('"')),
    ensures
        parse_string_body(s, i) == Some((t, i + esc(t).len() + 1)),
    decreases t.len(),
{
    assert(esc(t).push('"') =~= esc(t) + seq!['"']);
    lemma_starts_at_split(s, i, esc(t), seq!['"']);
    assert(s[i + esc(t).len()] == '"') by {
        assert(s.subrange(i + esc(t).len(), i + esc(t).len() + 1)[0] == seq!['"'][0]);
    }
    if t.len() == 0 {
        assert(s[i] == '"');
    } else {
        let c = t[0];
        let rest = t.skip(1);
        assert(esc(t) == esc_char(c) + esc(rest));
        if c == '"' || c == '\\' {
            assert(esc_char(c) =~= seq!['\\', c]);
            assert((esc_char(c) + esc(rest)).push('"') =~= seq!['\\', c] + esc(rest).push('"'));
            lemma_starts_at_split(s, i, seq!['\\', c], esc(rest).push('"'));
            assert(s[i] == '\\');
            assert(s[i + 1] == c) by {
                assert(s.subrange(i, i + 2)[1] == seq!['\\', c][1]);
            }
            lemma_parse_string_complete(s, i + 2, rest);
            assert(seq![s[i + 1]] + rest =~= t);
        } else {
            assert(esc_char(c) =~= seq![c]);
            assert((esc_char(c) + esc(rest)).push('"') =~= seq![c] + esc(rest).push('"'));
            lemma_starts_at_split(s, i, seq![c], esc(rest).push('"'));
            assert(s[i] == c) by {
                assert(s.subrange(i, i + 1)[0] == seq![c][0]);
            }
            lemma_parse_string_complete(s, i + 1, rest);
            assert(seq![s[i]] + rest =~= t);
        }
    }
}

/// The payload of an `update_slippage` bridge message.
pub open spec fn slippage_payload(slippage: u64) -> Seq<char> {
    "{\"slippage\":"@ + dec_digits(slippage as nat) + "}"@
}

/// Renders the `update_slippage` payload.
pub fn encode_slippage_payload(slippage: u64) -> (s: String)
    ensures
        s@ == slippage_payload(slippage),
{
    let mut out = String::new();
    out.append("{\"slippage\":");
    let digits = u64_to_dec(slippage);
    out.append(digits.as_str());
    out.append("}");
    out
}

pub proof fn lemma_starts_at_join(s: Seq<char>, i: int, a: Seq<char>, b: Seq<char>)
    requires
        starts_at(s, i, a),
        starts_at(s, i + a.len(), b),
    ensures
        starts_at(s, i, a + b),
{
    assert(s.subrange(i, i + (a + b).len()) =~= a + b) by {
        assert forall|t: int|
            0 <= t < (a + b).len() implies s.subrange(i, i + (a + b).len())[t] == (a + b)[t] by {
            if t < a.len() {
                assert(s.subrange(i, i + a.len())[t] == a[t]);
            } else {
                assert(s.subrange(i + a.len(), i + a.len() + b.len())[t - a.len()] == b[t
                    - a.len()]);
            }
        }
    }
}

/// A 64-bit number field: the key literal, then digits within range.
pub open spec fn parse_u64_field(s: Seq<char>, i: int, key: Seq<char>) -> Option<(u64, int)> {
    match parse_lit(s, i, key) {
        Some(j) => match parse_num(s, j) {
            Some(r) => if r.0 <= u64::MAX {
                Some((r.0 as u64, r.1))
            } else {
                None
            },
            None => None,
        },
        None => None,
    }
}

/// A 128-bit number field: the key literal, then digits within range.
pub open spec fn parse_u128_field(s: Seq<char>, i: int, key: Seq<char>) -> Option<(u128, int)> {
    match parse_lit(s, i, key) {
        Some(j) => match parse_num(s, j) {
            Some(r) => if r.0 <= u128::MAX {
                Some((r.0 as u128, r.1))
            } else {
                None
            },
            None => None,
        },
        None => None,
    }
}

/// A string field: the key literal (ending in the opening quote), then the
/// escaped body and its closing quote.
pub open spec fn parse_str_field(s: Seq<char>, i: int, key: Seq<char>) -> Option<
    (Seq<char>, int),
> {
    match parse_lit(s, i, key) {
        Some(j) => parse_string_body(s, j),
        None => None,
    }
}

/// The status carried by a status word, if it is one.
pub open spec fn status_of_word(w: Seq<char>) -> Option<OrderStatus> {
    if w == "Active"@ {
        Some(OrderStatus::Active)
    } else if w == "Locked"@ {
        Some(OrderStatus::Locked)
    } else if w == "Completed"@ {
        Some(OrderStatus::Completed)
    } else if w == "Expired"@ {
        Some(OrderStatus::Expired)
    } else if w == "Cancelled"@ {
        Some(OrderStatus::Cancelled)
    } else {
        None
    }
}

/// The secret field's value: `null`, or a quoted string.
pub open spec fn parse_secret(s: Seq<char>, i: int) -> Option<(Option<Seq<char>>, int)> {
    if starts_at(s, i, "null"@) {
        Some((None, i + "null"@.len() as int))
    } else if 0 <= i < s.len() && s[i] == '"' {
        match parse_string_body(s, i + 1) {
            Some(r) => Some((Some(r.0), r.1)),
            None => None,
        }
    } else {
        None
    }
}

pub proof fn lemma_parse_u64_field_complete(s: Seq<char>, i: int, key: Seq<char>, n: u64)
    requires
        starts_at(s, i, key),
        starts_at(s, i + key.len(), dec_digits(n as nat)),
        i + key.len() + dec_digits(n as nat).len() == s.len() || !is_digit_char(
            s[i + key.len() + dec_digits(n as nat).len()],
        ),
    ensures
        parse_u64_field(s, i, key) == Some(
            (n, i + key.len() + dec_digits(n as nat).len() as int),
        ),
{
    lemma_parse_num_complete(s, i + key.len(), n as nat);
}

pub proof fn lemma_parse_u128_field_complete(s: Seq<char>, i: int, key: Seq<char>, n: u128)
    requires
        starts_at(s, i, key),
        starts_at(s, i + key.len(), dec_digits(n as nat)),
        i + key.len() + dec_digits(n as nat).len() == s.len() || !is_digit_char(
            s[i + key.len() + dec_digits(n as nat).len()],
        ),
    ensures
        parse_u128_field(s, i, key) == Some(
            (n, i + key.len() + dec_digits(n as nat).len() as int),
        ),
{
    lemma_parse_num_complete(s, i + key.len(), n as nat);
}

pub proof fn lemma_parse_str_field_complete(s: Seq<char>, i: int, key: Seq<char>, t: Seq<char>)
    requires
        starts_at(s, i, key),
        starts_at(s, i + key.len(), esc(t)),
        starts_at(s, i + key.len() + esc(t).len(), "\""@),
    ensures
        parse_str_field(s, i, key) == Some((t, i + key.len() + esc(t).len() + 1)),
{
    reveal_strlit("\"");
    assert("\""@ =~= seq!['"']);
    lemma_starts_at_join(s, i + key.len(), esc(t), "\""@);
    assert(esc(t) + "\""@ =~= esc(t).push('"'));
    lemma_parse_string_complete(s, i + key.len(), t);
}

/// Each status word escapes to itself and is recognized by
/// `status_of_word`.
pub proof fn lemma_status_words(status: OrderStatus)
    ensures
        esc(status_chars(status)) == status_chars(status),
        status_of_word(status_chars(status)) == Some(status),
{
    reveal_strlit("Active");
    reveal_strlit("Locked");
    reveal_strlit("Completed");
    reveal_strlit("Expired");
    reveal_strlit("Cancelled");
    assert("Locked"@ != "Active"@) by {
        assert("Locked"@[0] == 'L' && "Active"@[0] == 'A');
    }
    assert("Cancelled"@ != "Completed"@) by {
        assert("Cancelled"@[1] == 'a' && "Completed"@[1] == 'o');
    }
    lemma_esc_no_special(status_chars(status));
}

/// Escaping changes nothing in a sequence without quotes or backslashes.
pub proof fn lemma_esc_no_special(t: Seq<char>)
    requires
        forall|j: int| 0 <= j < t.len() ==> t[j] != '"' && t[j] != '\\',
    ensures
        esc(t) == t,
    decreases t.len(),
{
    if t.len() > 0 {
        lemma_esc_no_special(t.skip(1));
        assert(esc_char(t[0]) =~= seq![t[0]]);
        assert(seq![t[0]] + t.skip(1) =~= t);
    }
}

pub proof fn lemma_parse_secret_complete(s: Seq<char>, i: int, secret: Option<Seq<char>>)
    requires
        starts_at(s, i, secret_chars(secret)),
    ensures
        parse_secret(s, i) == Some((secret, i + secret_chars(secret).len() as int)),
{
    reveal_strlit("null");
    reveal_strlit("\"");
    match secret {
        Option::None => {
        },
        Option::Some(t) => {
            assert(secret_chars(secret) =~= seq!['"'] + esc(t).push('"'));
            lemma_starts_at_split(s, i, seq!['"'], esc(t).push('"'));
            assert(s[i] == '"') by {
                assert(s.subrange(i, i + 1)[0] == seq!['"'][0]);
            }
            assert(!starts_at(s, i, "null"@)) by {
                if starts_at(s, i, "null"@) {
                    assert(s.subrange(i, i + 4)[0] == "null"@[0]);
                    assert(s[i] == 'n');
                }
            }
            lemma_parse_string_complete(s, i + 1, t);
        },
    }
}

/// The decoder for the canonical order encoding: the exact inverse of
/// `enc_order` on its range, `None` on anything else.
pub open spec fn dec_order(s: Seq<char>) -> Option<OrderModel> {
    match parse_u64_field(s, 0, "{\"order_id\":"@) {
        None => None,
        Some((order_id, i1)) => match parse_str_field(s, i1, ",\"maker\":\""@) {
            None => None,
            Some((maker, i2)) => match parse_str_field(s, i2, ",\"token_in\":\""@) {
                None => None,
                Some((token_in, i3)) => match parse_str_field(s, i3, ",\"token_out\":\""@) {
                    None => None,
                    Some((token_out, i4)) => match parse_u128_field(
                        s,
                        i4,
                        ",\"amount_in\":"@,
                    ) {
                        None => None,
                        Some((amount_in, i5)) => dec_order_mid(
                            s,
                            i5,
                            OrderModel {
                                order_id,
                                maker,
                                token_in,
                                token_out,
                                amount_in,
                                base_price: 0,
                                current_slippage: 0,
                                max_slippage_deviation: 0,
                                target_chain_id: 0,
                                hashlock: Seq::<char>::empty(),
                                timelock: 0,
                                secret: None,
                                status: OrderStatus::Active,
                                created_at: 0,
                                last_slippage_update: 0,
                                fill_attempts: 0,
                            },
                        ),
                    },
                },
            },
        },
    }
}

/// The middle of the decoder: price and risk figures, the hashlock and the
/// timelock.
pub open spec fn dec_order_mid(s: Seq<char>, i: int, head: OrderModel) -> Option<OrderModel> {
    match parse_u128_field(s, i, ",\"base_price\":"@) {
        None => None,
        Some((base_price, i6)) => match parse_u64_field(s, i6, ",\"current_slippage\":"@) {
            None => None,
            Some((current_slippage, i7)) => match parse_u64_field(
                s,
                i7,
                ",\"max_slippage_deviation\":"@,
            ) {
                None => None,
                Some((max_slippage_deviation, i8)) => match parse_u64_field(
                    s,
                    i8,
                    ",\"target_chain_id\":"@,
                ) {
                    None => None,
                    Some((target_chain_id, i9)) => match parse_str_field(
                        s,
                        i9,
                        ",\"hashlock\":\""@,
                    ) {
                        None => None,
                        Some((hashlock, i10)) => match parse_u64_field(
                            s,
                            i10,
                            ",\"timelock\":"@,
                        ) {
                            None => None,
                            Some((timelock, i11)) => dec_order_rest(
                                s,
                                i11,
                                OrderModel {
                                    base_price,
                                    current_slippage,
                                    max_slippage_deviation,
                                    target_chain_id,
                                    hashlock,
                                    timelock,
                                    ..head
                                },
                            ),
                        },
                    },
                },
            },
        },
    }
}

/// The tail of the decoder: secret, status, timestamps, attempt count, and
/// the closing brace, which must end the input.
pub open spec fn dec_order_rest(s: Seq<char>, i: int, head: OrderModel) -> Option<OrderModel> {
    match parse_lit(s, i, ",\"secret\":"@) {
        None => None,
        Some(j) => match parse_secret(s, j) {
            None => None,
            Some((secret, i12)) => match parse_str_field(s, i12, ",\"status\":\""@) {
                None => None,
                Some((word, i13)) => match status_of_word(word) {
                    None => None,
                    Some(status) => match parse_u64_field(s, i13, ",\"created_at\":"@) {
                        None => None,
                        Some((created_at, i14)) => match parse_u64_field(
                            s,
                            i14,
                            ",\"last_slippage_update\":"@,
                        ) {
                            None => None,
                            Some((last_slippage_update, i15)) => match parse_u64_field(
                                s,
                                i15,
                                ",\"fill_attempts\":"@,
                            ) {
                                None => None,
                                Some((fill_attempts, i16)) => match parse_lit(s, i16, "}"@) {
                                    None => None,
                                    Some(i17) => if i17 == s.len() {
                                        Some(
                                            OrderModel {
                                                secret,
                                                status,
                                                created_at,
                                                last_slippage_update,
                                                fill_attempts,
                                                ..head
                                            },
                                        )
                                    } else {
                                        None
                                    },
                                },
                            },
                        },
                    },
                },
            },
        },
    }
}

/// The tail of the canonical encoding, from the secret field on.
pub open spec fn enc_order_tail(o: OrderModel) -> Seq<char> {
    ",\"secret\":"@ + (secret_chars(o.secret) + (",\"status\":\""@ + (status_chars(o.status) + ("\""@ + (",\"created_at\":"@ + (dec_digits(o.created_at as nat) + (",\"last_slippage_update\":"@ + (dec_digits(o.last_slippage_update as nat) + (",\"fill_attempts\":"@ + (dec_digits(o.fill_attempts as nat) + ("}"@)))))))))))
}

/// The canonical encoding from the base price on.
pub open spec fn enc_order_mid(o: OrderModel) -> Seq<char> {
    ",\"base_price\":"@ + (dec_digits(o.base_price as nat) + (",\"current_slippage\":"@ + (dec_digits(o.current_slippage as nat) + (",\"max_slippage_deviation\":"@ + (dec_digits(o.max_slippage_deviation as nat) + (",\"target_chain_id\":"@ + (dec_digits(o.target_chain_id as nat) + (",\"hashlock\":\""@ + (esc(o.hashlock) + ("\""@ + (",\"timelock\":"@ + (dec_digits(o.timelock as nat) + (enc_order_tail(o))))))))))))))
}

/// The canonical encoding, grouped by field for the decoder.
pub open spec fn enc_order_nested(o: OrderModel) -> Seq<char> {
    "{\"order_id\":"@ + (dec_digits(o.order_id as nat) + (",\"maker\":\""@ + (esc(o.maker) + ("\""@ + (",\"token_in\":\""@ + (esc(o.token_in) + ("\""@ + (",\"token_out\":\""@ + (esc(o.token_out) + ("\""@ + (",\"amount_in\":"@ + (dec_digits(o.amount_in as nat) + (enc_order_mid(o))))))))))))))
}

#[verifier::rlimit(100)]
#[verifier::spinoff_prover]
pub proof fn lemma_enc_order_assoc(o: OrderModel)
    ensures
        enc_order(o) == enc_order_nested(o),
{
    let c1 = "{\"order_id\":"@;
    let c2 = dec_digits(o.order_id as nat);
    let c3 = ",\"maker\":\""@;
    let c4 = esc(o.maker);
    let c5 = "\""@;
    let c6 = ",\"token_in\":\""@;
    let c7 = esc(o.token_in);
    let c8 = "\""@;
    let c9 = ",\"token_out\":\""@;
    let c10 = esc(o.token_out);
    let c11 = "\""@;
    let c12 = ",\"amount_in\":"@;
    let c13 = dec_digits(o.amount_in as nat);
    let c14 = ",\"base_price\":"@;
    let c15 = dec_digits(o.base_price as nat);
    let c16 = ",\"current_slippage\":"@;
    let c17 = dec_digits(o.current_slippage as nat);
    let c18 = ",\"max_slippage_deviation\":"@;
    let c19 = dec_digits(o.max_slippage_deviation as nat);
    let c20 = ",\"target_chain_id\":"@;
    let c21 = dec_digits(o.target_chain_id as nat);
    let c22 = ",\"hashlock\":\""@;
    let c23 = esc(o.hashlock);
    let c24 = "\""@;
    let c25 = ",\"timelock\":"@;
    let c26 = dec_digits(o.timelock as nat);
    let c27 = ",\"secret\":"@;
    let c28 = secret_chars(o.secret);
    let c29 = ",\"status\":\""@;
    let c30 = status_chars(o.status);
    let c31 = "\""@;
    let c32 = ",\"created_at\":"@;
    let c33 = dec_digits(o.created_at as nat);
    let c34 = ",\"last_slippage_update\":"@;
    let c35 = dec_digits(o.last_slippage_update as nat);
    let c36 = ",\"fill_attempts\":"@;
    let c37 = dec_digits(o.fill_attempts as nat);
    let c38 = "}"@;
    let u1 = c1;
    let u2 = u1 + c2;
    let u3 = u2 + c3;
    let u4 = u3 + c4;
    let u5 = u4 + c5;
    let u6 = u5 + c6;
    let u7 = u6 + c7;
    let u8 = u7 + c8;
    let u9 = u8 + c9;
    let u10 = u9 + c10;
    let u11 = u10 + c11;
    let u12 = u11 + c12;
    let u13 = u12 + c13;
    let u14 = u13 + c14;
    let u15 = u14 + c15;
    let u16 = u15 + c16;
    let u17 = u16 + c17;
    let u18 = u17 + c18;
    let u19 = u18 + c19;
    let u20 = u19 + c20;
    let u21 = u20 + c21;
    let u22 = u21 + c22;
    let u23 = u22 + c23;
    let u24 = u23 + c24;
    let u25 = u24 + c25;
    let u26 = u25 + c26;
    let u27 = u26 + c27;
    let u28 = u27 + c28;
    let u29 = u28 + c29;
    let u30 = u29 + c30;
    let u31 = u30 + c31;
    let u32 = u31 + c32;
    let u33 = u32 + c33;
    let u34 = u33 + c34;
    let u35 = u34 + c35;
    let u36 = u35 + c36;
    let u37 = u36 + c37;
    let u38 = u37 + c38;
    let t38 = c38;
    let t37 = c37 + t38;
    let t36 = c36 + t37;
    let t35 = c35 + t36;
    let t34 = c34 + t35;
    let t33 = c33 + t34;
    let t32 = c32 + t33;
    let t31 = c31 + t32;
    let t30 = c30 + t31;
    let t29 = c29 + t30;
    let t28 = c28 + t29;
    let t27 = c27 + t28;
    let t26 = c26 + t27;
    let t25 = c25 + t26;
    let t24 = c24 + t25;
    let t23 = c23 + t24;
    let t22 = c22 + t23;
    let t21 = c21 + t22;
    let t20 = c20 + t21;
    let t19 = c19 + t20;
    let t18 = c18 + t19;
    let t17 = c17 + t18;
    let t16 = c16 + t17;
    let t15 = c15 + t16;
    let t14 = c14 + t15;
    let t13 = c13 + t14;
    let t12 = c12 + t13;
    let t11 = c11 + t12;
    let t10 = c10 + t11;
    let t9 = c9 + t10;
    let t8 = c8 + t9;
    let t7 = c7 + t8;
    let t6 = c6 + t7;
    let t5 = c5 + t6;
    let t4 = c4 + t5;
    let t3 = c3 + t4;
    let t2 = c2 + t3;
    let t1 = c1 + t2;
    assert(enc_order(o) == u38);
    assert(u38 == u37 + t38);
    lemma_concat_associative(u36, c37, t38);
    assert(u37 + t38 == u36 + t37);
    lemma_concat_associative(u35, c36, t37);
    assert(u36 + t37 == u35 + t36);
    lemma_concat_associative(u34, c35, t36);
    assert(u35 + t36 == u34 + t35);
    lemma_concat_associative(u33, c34, t35);
    assert(u34 + t35 == u33 + t34);
    lemma_concat_associative(u32, c33, t34);
    assert(u33 + t34 == u32 + t33);
    lemma_concat_associative(u31, c32, t33);
    assert(u32 + t33 == u31 + t32);
    lemma_concat_associative(u30, c31, t32);
    assert(u31 + t32 == u30 + t31);
    lemma_concat_associative(u29, c30, t31);
    assert(u30 + t31 == u29 + t30);
    lemma_concat_associative(u28, c29, t30);
    assert(u29 + t30 == u28 + t29);
    lemma_concat_associative(u27, c28, t29);
    assert(u28 + t29 == u27 + t28);
    lemma_concat_associative(u26, c27, t28);
    assert(u27 + t28 == u26 + t27);
    lemma_concat_associative(u25, c26, t27);
    assert(u26 + t27 == u25 + t26);
    lemma_concat_associative(u24, c25, t26);
    assert(u25 + t26 == u24 + t25);
    lemma_concat_associative(u23, c24, t25);
    assert(u24 + t25 == u23 + t24);
    lemma_concat_associative(u22, c23, t24);
    assert(u23 + t24 == u22 + t23);
    lemma_concat_associative(u21, c22, t23);
    assert(u22 + t23 == u21 + t22);
    lemma_concat_associative(u20, c21, t22);
    assert(u21 + t22 == u20 + t21);
    lemma_concat_associative(u19, c20, t21);
    assert(u20 + t21 == u19 + t20);
    lemma_concat_associative(u18, c19, t20);
    assert(u19 + t20 == u18 + t19);
    lemma_concat_associative(u17, c18, t19);
    assert(u18 + t19 == u17 + t18);
    lemma_concat_associative(u16, c17, t18);
    assert(u17 + t18 == u16 + t17);
    lemma_concat_associative(u15, c16, t17);
    assert(u16 + t17 == u15 + t16);
    lemma_concat_associative(u14, c15, t16);
    assert(u15 + t16 == u14 + t15);
    lemma_concat_associative(u13, c14, t15);
    assert(u14 + t15 == u13 + t14);
    lemma_concat_associative(u12, c13, t14);
    assert(u13 + t14 == u12 + t13);
    lemma_concat_associative(u11, c12, t13);
    assert(u12 + t13 == u11 + t12);
    lemma_concat_associative(u10, c11, t12);
    assert(u11 + t12 == u10 + t11);
    lemma_concat_associative(u9, c10, t11);
    assert(u10 + t11 == u9 + t10);
    lemma_concat_associative(u8, c9, t10);
    assert(u9 + t10 == u8 + t9);
    lemma_concat_associative(u7, c8, t9);
    assert(u8 + t9 == u7 + t8);
    lemma_concat_associative(u6, c7, t8);
    assert(u7 + t8 == u6 + t7);
    lemma_concat_associative(u5, c6, t7);
    assert(u6 + t7 == u5 + t6);
    lemma_concat_associative(u4, c5, t6);
    assert(u5 + t6 == u4 + t5);
    lemma_concat_associative(u3, c4, t5);
    assert(u4 + t5 == u3 + t4);
    lemma_concat_associative(u2, c3, t4);
    assert(u3 + t4 == u2 + t3);
    lemma_concat_associative(u1, c2, t3);
    assert(u2 + t3 == u1 + t2);
    assert(u1 + t2 == t1);
    assert(t27 == enc_order_tail(o));
    assert(t14 == enc_order_mid(o));
    assert(enc_order_nested(o) == t1);
}

#[verifier::rlimit(100)]
#[verifier::spinoff_prover]
pub proof fn lemma_dec_order_tail_complete(s: Seq<char>, i: int, o: OrderModel, head: OrderModel)
    requires
        starts_at(s, i, enc_order_tail(o)),
        i + enc_order_tail(o).len() == s.len(),
        head.order_id == o.order_id,
        head.maker == o.maker,
        head.token_in == o.token_in,
        head.token_out == o.token_out,
        head.amount_in == o.amount_in,
        head.base_price == o.base_price,
        head.current_slippage == o.current_slippage,
        head.max_slippage_deviation == o.max_slippage_deviation,
        head.target_chain_id == o.target_chain_id,
        head.hashlock == o.hashlock,
        head.timelock == o.timelock,
    ensures
        dec_order_rest(s, i, head) == Some(o),
{
    reveal_strlit(",\"secret\":");
    reveal_strlit(",\"status\":\"");
    reveal_strlit(",\"created_at\":");
    reveal_strlit(",\"last_slippage_update\":");
    reveal_strlit(",\"fill_attempts\":");
    reveal_strlit("}");
    reveal_strlit("\"");
    let c27 = ",\"secret\":"@;
    let c28 = secret_chars(o.secret);
    let c29 = ",\"status\":\""@;
    let c30 = status_chars(o.status);
    let c31 = "\""@;
    let c32 = ",\"created_at\":"@;
    let c33 = dec_digits(o.created_at as nat);
    let c34 = ",\"last_slippage_update\":"@;
    let c35 = dec_digits(o.last_slippage_update as nat);
    let c36 = ",\"fill_attempts\":"@;
    let c37 = dec_digits(o.fill_attempts as nat);
    let c38 = "}"@;
    let t38 = c38;
    let t37 = c37 + t38;
    let t36 = c36 + t37;
    let t35 = c35 + t36;
    let t34 = c34 + t35;
    let t33 = c33 + t34;
    let t32 = c32 + t33;
    let t31 = c31 + t32;
    let t30 = c30 + t31;
    let t29 = c29 + t30;
    let t28 = c28 + t29;
    let t27 = c27 + t28;
    assert(enc_order_tail(o) == t27);
    let q27 = i;
    let q28 = q27 + c27.len();
    let q29 = q28 + c28.len();
    let q30 = q29 + c29.len();
    let q31 = q30 + c30.len();
    let q32 = q31 + c31.len();
    let q33 = q32 + c32.len();
    let q34 = q33 + c33.len();
    let q35 = q34 + c34.len();
    let q36 = q35 + c35.len();
    let q37 = q36 + c36.len();
    let q38 = q37 + c37.len();
    let q39 = q38 + c38.len();
    lemma_starts_at_split(s, q27, c27, t28);
    lemma_starts_at_split(s, q28, c28, t29);
    lemma_starts_at_split(s, q29, c29, t30);
    lemma_starts_at_split(s, q30, c30, t31);
    lemma_starts_at_split(s, q31, c31, t32);
    lemma_starts_at_split(s, q32, c32, t33);
    lemma_starts_at_split(s, q33, c33, t34);
    lemma_starts_at_split(s, q34, c34, t35);
    lemma_starts_at_split(s, q35, c35, t36);
    lemma_starts_at_split(s, q36, c36, t37);
    lemma_starts_at_split(s, q37, c37, t38);
    assert(s[q34] == c34[0]) by {
        assert(s.subrange(q34, q34 + c34.len())[0] == c34[0]);
    }
    assert(!is_digit_char(s[q34]));
    assert(s[q36] == c36[0]) by {
        assert(s.subrange(q36, q36 + c36.len())[0] == c36[0]);
    }
    assert(!is_digit_char(s[q36]));
    assert(s[q38] == c38[0]) by {
        assert(s.subrange(q38, q38 + c38.len())[0] == c38[0]);
    }
    assert(!is_digit_char(s[q38]));
    lemma_parse_secret_complete(s, q28, o.secret);
    lemma_status_words(o.status);
    assert(starts_at(s, q30, esc(status_chars(o.status))));
    lemma_parse_str_field_complete(s, q29, c29, status_chars(o.status));
    lemma_parse_u64_field_complete(s, q32, c32, o.created_at);
    lemma_parse_u64_field_complete(s, q34, c34, o.last_slippage_update);
    lemma_parse_u64_field_complete(s, q36, c36, o.fill_attempts);
    assert(s.len() == q39);
    assert(dec_order_rest(s, i, head) == Some(o));
}

#[verifier::rlimit(100)]
#[verifier::spinoff_prover]
pub proof fn lemma_dec_order_mid_complete(s: Seq<char>, i: int, o: OrderModel, head: OrderModel)
    requires
        starts_at(s, i, enc_order_mid(o)),
        i + enc_order_mid(o).len() == s.len(),
        head.order_id == o.order_id,
        head.maker == o.maker,
        head.token_in == o.token_in,
        head.token_out == o.token_out,
        head.amount_in == o.amount_in,
    ensures
        dec_order_mid(s, i, head) == Some(o),
{
    reveal_strlit(",\"base_price\":");
    reveal_strlit(",\"current_slippage\":");
    reveal_strlit(",\"max_slippage_deviation\":");
    reveal_strlit(",\"target_chain_id\":");
    reveal_strlit(",\"hashlock\":\"");
    reveal_strlit(",\"timelock\":");
    reveal_strlit("\"");
    let c14 = ",\"base_price\":"@;
    let c15 = dec_digits(o.base_price as nat);
    let c16 = ",\"current_slippage\":"@;
    let c17 = dec_digits(o.current_slippage as nat);
    let c18 = ",\"max_slippage_deviation\":"@;
    let c19 = dec_digits(o.max_slippage_deviation as nat);
    let c20 = ",\"target_chain_id\":"@;
    let c21 = dec_digits(o.target_chain_id as nat);
    let c22 = ",\"hashlock\":\""@;
    let c23 = esc(o.hashlock);
    let c24 = "\""@;
    let c25 = ",\"timelock\":"@;
    let c26 = dec_digits(o.timelock as nat);
    let t27 = enc_order_tail(o);
    let t26 = c26 + t27;
    let t25 = c25 + t26;
    let t24 = c24 + t25;
    let t23 = c23 + t24;
    let t22 = c22 + t23;
    let t21 = c21 + t22;
    let t20 = c20 + t21;
    let t19 = c19 + t20;
    let t18 = c18 + t19;
    let t17 = c17 + t18;
    let t16 = c16 + t17;
    let t15 = c15 + t16;
    let t14 = c14 + t15;
    assert(enc_order_mid(o) == t14);
    let q14 = i;
    let q15 = q14 + c14.len();
    let q16 = q15 + c15.len();
    let q17 = q16 + c16.len();
    let q18 = q17 + c17.len();
    let q19 = q18 + c18.len();
    let q20 = q19 + c19.len();
    let q21 = q20 + c20.len();
    let q22 = q21 + c21.len();
    let q23 = q22 + c22.len();
    let q24 = q23 + c23.len();
    let q25 = q24 + c24.len();
    let q26 = q25 + c25.len();
    let q27 = q26 + c26.len();
    lemma_starts_at_split(s, q14, c14, t15);
    lemma_starts_at_split(s, q15, c15, t16);
    lemma_starts_at_split(s, q16, c16, t17);
    lemma_starts_at_split(s, q17, c17, t18);
    lemma_starts_at_split(s, q18, c18, t19);
    lemma_starts_at_split(s, q19, c19, t20);
    lemma_starts_at_split(s, q20, c20, t21);
    lemma_starts_at_split(s, q21, c21, t22);
    lemma_starts_at_split(s, q22, c22, t23);
    lemma_starts_at_split(s, q23, c23, t24);
    lemma_starts_at_split(s, q24, c24, t25);
    lemma_starts_at_split(s, q25, c25, t26);
    assert(s[q16] == c16[0]) by {
        assert(s.subrange(q16, q16 + c16.len())[0] == c16[0]);
    }
    assert(!is_digit_char(s[q16]));
    assert(s[q18] == c18[0]) by {
        assert(s.subrange(q18, q18 + c18.len())[0] == c18[0]);
    }
    assert(!is_digit_char(s[q18]));
    assert(s[q20] == c20[0]) by {
        assert(s.subrange(q20, q20 + c20.len())[0] == c20[0]);
    }
    assert(!is_digit_char(s[q20]));
    assert(s[q22] == c22[0]) by {
        assert(s.subrange(q22, q22 + c22.len())[0] == c22[0]);
    }
    assert(!is_digit_char(s[q22]));
    lemma_starts_at_split(s, q26, c26, t27);
    reveal_strlit(",\"secret\":");
    assert(s[q27] == t27[0]) by {
        assert(s.subrange(q27, q27 + t27.len())[0] == t27[0]);
    }
    assert(t27[0] == ",\"secret\":"@[0]);
    assert(!is_digit_char(s[q27]));
    lemma_parse_u128_field_complete(s, q14, c14, o.base_price);
    lemma_parse_u64_field_complete(s, q16, c16, o.current_slippage);
    lemma_parse_u64_field_complete(s, q18, c18, o.max_slippage_deviation);
    lemma_parse_u64_field_complete(s, q20, c20, o.target_chain_id);
    lemma_parse_str_field_complete(s, q22, c22, o.hashlock);
    lemma_parse_u64_field_complete(s, q25, c25, o.timelock);
    let head2 = OrderModel { base_price: o.base_price, current_slippage: o.current_slippage, max_slippage_deviation: o.max_slippage_deviation, target_chain_id: o.target_chain_id, hashlock: o.hashlock, timelock: o.timelock, ..head };
    lemma_dec_order_tail_complete(s, q27, o, head2);
    assert(dec_order_mid(s, i, head) == Some(o));
}

/// Law: decoding the canonical encoding of any order reproduces the
/// order, every field preserved.
#[verifier::rlimit(100)]
#[verifier::spinoff_prover]
pub proof fn lemma_dec_order_complete(o: OrderModel)
    ensures
        dec_order(enc_order(o)) == Some(o),
{
    reveal_strlit("{\"order_id\":");
    reveal_strlit(",\"maker\":\"");
    reveal_strlit(",\"token_in\":\"");
    reveal_strlit(",\"token_out\":\"");
    reveal_strlit(",\"amount_in\":");
    reveal_strlit("\"");
    lemma_enc_order_assoc(o);
    let s = enc_order(o);
    let c1 = "{\"order_id\":"@;
    let c2 = dec_digits(o.order_id as nat);
    let c3 = ",\"maker\":\""@;
    let c4 = esc(o.maker);
    let c5 = "\""@;
    let c6 = ",\"token_in\":\""@;
    let c7 = esc(o.token_in);
    let c8 = "\""@;
    let c9 = ",\"token_out\":\""@;
    let c10 = esc(o.token_out);
    let c11 = "\""@;
    let c12 = ",\"amount_in\":"@;
    let c13 = dec_digits(o.amount_in as nat);
    let t14 = enc_order_mid(o);
    let t13 = c13 + t14;
    let t12 = c12 + t13;
    let t11 = c11 + t12;
    let t10 = c10 + t11;
    let t9 = c9 + t10;
    let t8 = c8 + t9;
    let t7 = c7 + t8;
    let t6 = c6 + t7;
    let t5 = c5 + t6;
    let t4 = c4 + t5;
    let t3 = c3 + t4;
    let t2 = c2 + t3;
    let t1 = c1 + t2;
    assert(s == t1);
    assert(s.subrange(0, s.len() as int) =~= s);
    assert(starts_at(s, 0, t1));
    let q1: int = 0;
    let q2 = q1 + c1.len();
    let q3 = q2 + c2.len();
    let q4 = q3 + c3.len();
    let q5 = q4 + c4.len();
    let q6 = q5 + c5.len();
    let q7 = q6 + c6.len();
    let q8 = q7 + c7.len();
    let q9 = q8 + c8.len();
    let q10 = q9 + c9.len();
    let q11 = q10 + c10.len();
    let q12 = q11 + c11.len();
    let q13 = q12 + c12.len();
    let q14 = q13 + c13.len();
    lemma_starts_at_split(s, q1, c1, t2);
    lemma_starts_at_split(s, q2, c2, t3);
    lemma_starts_at_split(s, q3, c3, t4);
    lemma_starts_at_split(s, q4, c4, t5);
    lemma_starts_at_split(s, q5, c5, t6);
    lemma_starts_at_split(s, q6, c6, t7);
    lemma_starts_at_split(s, q7, c7, t8);
    lemma_starts_at_split(s, q8, c8, t9);
    lemma_starts_at_split(s, q9, c9, t10);
    lemma_starts_at_split(s, q10, c10, t11);
    lemma_starts_at_split(s, q11, c11, t12);
    lemma_starts_at_split(s, q12, c12, t13);
    lemma_starts_at_split(s, q13, c13, t14);
    assert(s[q3] == c3[0]) by {
        assert(s.subrange(q3, q3 + c3.len())[0] == c3[0]);
    }
    assert(!is_digit_char(s[q3]));
    assert(s[q14] == t14[0]) by {
        assert(s.subrange(q14, q14 + t14.len())[0] == t14[0]);
    }
    reveal_strlit(",\"base_price\":");
    assert(t14[0] == ",\"base_price\":"@[0]);
    assert(!is_digit_char(s[q14]));
    lemma_parse_u64_field_complete(s, q1, c1, o.order_id);
    lemma_parse_str_field_complete(s, q3, c3, o.maker);
    lemma_parse_str_field_complete(s, q6, c6, o.token_in);
    lemma_parse_str_field_complete(s, q9, c9, o.token_out);
    lemma_parse_u128_field_complete(s, q12, c12, o.amount_in);
    let head = OrderModel {
        order_id: o.order_id,
        maker: o.maker,
        token_in: o.token_in,
        token_out: o.token_out,
        amount_in: o.amount_in,
        base_price: 0,
        current_slippage: 0,
        max_slippage_deviation: 0,
        target_chain_id: 0,
        hashlock: Seq::<char>::empty(),
        timelock: 0,
        secret: None,
        status: OrderStatus::Active,
        created_at: 0,
        last_slippage_update: 0,
        fill_attempts: 0,
    };
    lemma_dec_order_mid_complete(s, q14, o, head);
    assert(dec_order(s) == Some(o));
}

fn exec_digit_val(c: char) -> (d: u32)
    ensures
        d == digit_val(c),
{
    if c == '0' {
        0
    } else if c == '1' {
        1
    } else if c == '2' {
        2
    } else if c == '3' {
        3
    } else if c == '4' {
        4
    } else if c == '5' {
        5
    } else if c == '6' {
        6
    } else if c == '7' {
        7
    } else if c == '8' {
        8
    } else if c == '9' {
        9
    } else {
        10
    }
}

/// Checks for a literal at position `i`.
fn expect_lit(s: &str, i: usize, lit: &str) -> (r: Option<usize>)
    requires
        i <= s@.len(),
    ensures
        match r {
            Some(j) => parse_lit(s@, i as int, lit@) == Some(j as int) && i <= j <= s@.len(),
            None => parse_lit(s@, i as int, lit@) is None,
        },
{
    let n = s.unicode_len();
    let m = lit.unicode_len();
    if m > n - i {
        return None;
    }
    let mut k: usize = 0;
    while k < m
        invariant
            i + m <= n,
            k <= m,
            n == s@.len(),
            m == lit@.len(),
            forall|t: int| 0 <= t < k ==> s@[i + t] == lit@[t],
        decreases m - k,
    {
        if s.get_char(i + k) != lit.get_char(k) {
            proof {
                assert(s@.subrange(i as int, i + lit@.len()) != lit@) by {
                    assert(s@.subrange(i as int, i + lit@.len())[k as int] == s@[i + k]);
                }
            }
            return None;
        }
        k = k + 1;
    }
    proof {
        assert(s@.subrange(i as int, i + lit@.len()) =~= lit@);
    }
    Some(i + m)
}

proof fn lemma_parse_val_extend(s: Seq<char>, i: int, j: int)
    requires
        0 <= i <= j < s.len(),
    ensures
        parse_val(s.subrange(i, j + 1)) == parse_val(s.subrange(i, j)) * 10 + digit_val(s[j]),
{
    assert(s.subrange(i, j + 1).drop_last() =~= s.subrange(i, j));
    assert(s.subrange(i, j + 1).last() == s[j]);
}

proof fn lemma_parse_val_grows(s: Seq<char>, i: int, j: int, e: int)
    requires
        0 <= i <= j <= e <= s.len(),
    ensures
        parse_val(s.subrange(i, j)) <= parse_val(s.subrange(i, e)),
    decreases e - j,
{
    if j < e {
        lemma_parse_val_grows(s, i, j, e - 1);
        lemma_parse_val_extend(s, i, e - 1);
    }
}

/// Parses a run of decimal digits at position `i` into an unsigned 128-bit
/// value; rejects runs whose value does not fit.
fn parse_num_exec(s: &str, i: usize) -> (r: Option<(u128, usize)>)
    requires
        i <= s@.len(),
    ensures
        match r {
            Some(p) => parse_num(s@, i as int) == Some((p.0 as nat, p.1 as int)) && i < p.1
                <= s@.len(),
            None => parse_num(s@, i as int) is None || (parse_num(s@, i as int) matches Some(p)
                && p.0 > u128::MAX),
        },
{
    let n = s.unicode_len();
    let mut e: usize = i;
    while e < n && exec_digit_val(s.get_char(e)) < 10
        invariant
            i <= e <= n,
            n == s@.len(),
            num_end(s@, i as int) == num_end(s@, e as int),
            forall|t: int| i <= t < e ==> is_digit_char(#[trigger] s@[t]),
        decreases n - e,
    {
        e = e + 1;
    }
    proof {
        assert(num_end(s@, e as int) == e);
        assert(num_end(s@, i as int) == e);
    }
    if e == i {
        return None;
    }
    let mut acc: u128 = 0;
    let mut j: usize = i;
    while j < e
        invariant
            i <= j <= e <= s@.len(),
            num_end(s@, i as int) == e,
            forall|t: int| i <= t < e ==> is_digit_char(#[trigger] s@[t]),
            acc == parse_val(s@.subrange(i as int, j as int)),
        decreases e - j,
    {
        let d = exec_digit_val(s.get_char(j)) as u128;
        if acc > (u128::MAX - d) / 10 {
            proof {
                assert(acc * 10 + d > u128::MAX) by (nonlinear_arith)
                    requires
                        acc > (u128::MAX - d) / 10,
                        d <= 9,
                ;
                lemma_parse_val_extend(s@, i as int, j as int);
                lemma_parse_val_grows(s@, i as int, j + 1, e as int);
                assert(parse_val(s@.subrange(i as int, e as int)) > u128::MAX);
            }
            return None;
        }
        proof {
            lemma_parse_val_extend(s@, i as int, j as int);
        }
        acc = acc * 10 + d;
        j = j + 1;
    }
    Some((acc, e))
}

/// Parses a quoted string body at position `i` (just past the opening
/// quote), unescaping it.
fn parse_string_exec(s: &str, i: usize) -> (r: Option<(String, usize)>)
    requires
        i <= s@.len(),
    ensures
        match r {
            Some(p) => parse_string_body(s@, i as int) == Some((p.0@, p.1 as int)) && i < p.1
                <= s@.len(),
            None => parse_string_body(s@, i as int) is None,
        },
    decreases s@.len() - i,
{
    let n = s.unicode_len();
    if i >= n {
        return None;
    }
    let c = s.get_char(i);
    if c == '"' {
        return Some((String::new(), i + 1));
    }
    if c == '\\' {
        if i + 1 < n {
            let c2 = s.get_char(i + 1);
            match parse_string_exec(s, i + 2) {
                Some(p) => {
                    let mut w = String::new();
                    push_char(&mut w, c2);
                    w.append(p.0.as_str());
                    proof {
                        assert(w@ =~= seq![s@[i + 1]] + p.0@);
                    }
                    Some((w, p.1))
                },
                None => None,
            }
        } else {
            None
        }
    } else {
        match parse_string_exec(s, i + 1) {
            Some(p) => {
                let mut w = String::new();
                push_char(&mut w, c);
                w.append(p.0.as_str());
                proof {
                    assert(w@ =~= seq![s@[i as int]] + p.0@);
                }
                Some((w, p.1))
            },
            None => None,
        }
    }
}

/// Parses a key literal followed by a 64-bit number.
fn parse_u64_field_exec(s: &str, i: usize, key: &str) -> (r: Option<(u64, usize)>)
    requires
        i <= s@.len(),
    ensures
        match r {
            Some(p) => parse_u64_field(s@, i as int, key@) == Some((p.0, p.1 as int)) && i
                <= p.1 <= s@.len(),
            None => parse_u64_field(s@, i as int, key@) is None,
        },
{
    match expect_lit(s, i, key) {
        None => None,
        Some(j) => match parse_num_exec(s, j) {
            None => None,
            Some(p) => if p.0 <= u64::MAX as u128 {
                Some((p.0 as u64, p.1))
            } else {
                None
            },
        },
    }
}

/// Parses a key literal followed by a 128-bit number.
fn parse_u128_field_exec(s: &str, i: usize, key: &str) -> (r: Option<(u128, usize)>)
    requires
        i <= s@.len(),
    ensures
        match r {
            Some(p) => parse_u128_field(s@, i as int, key@) == Some((p.0, p.1 as int)) && i
                <= p.1 <= s@.len(),
            None => parse_u128_field(s@, i as int, key@) is None,
        },
{
    match expect_lit(s, i, key) {
        None => None,
        Some(j) => match parse_num_exec(s, j) {
            None => None,
            Some(p) => Some((p.0, p.1)),
        },
    }
}

/// Parses a key literal (ending in the opening quote) followed by a string
/// body.
fn parse_str_field_exec(s: &str, i: usize, key: &str) -> (r: Option<(String, usize)>)
    requires
        i <= s@.len(),
    ensures
        match r {
            Some(p) => parse_str_field(s@, i as int, key@) == Some((p.0@, p.1 as int)) && i
                <= p.1 <= s@.len(),
            None => parse_str_field(s@, i as int, key@) is None,
        },
{
    match expect_lit(s, i, key) {
        None => None,
        Some(j) => parse_string_exec(s, j),
    }
}

/// Parses the secret value: `null` or a quoted string.
fn parse_secret_exec(s: &str, i: usize) -> (r: Option<(Option<String>, usize)>)
    requires
        i <= s@.len(),
    ensures
        match r {
            Some(p) => ({
                let secret = match p.0 {
                    Some(t) => Some(t@),
                    None => None::<Seq<char>>,
                };
                parse_secret(s@, i as int) == Some((secret, p.1 as int)) && i <= p.1
                    <= s@.len()
            }),
            None => parse_secret(s@, i as int) is None,
        },
{
    match expect_lit(s, i, "null") {
        Some(j) => Some((None, j)),
        None => {
            let n = s.unicode_len();
            if i < n {
                let c = s.get_char(i);
                if c == '"' {
                    match parse_string_exec(s, i + 1) {
                        Some(p) => Some((Some(p.0), p.1)),
                        None => None,
                    }
                } else {
                    None
                }
            } else {
                None
            }
        },
    }
}

/// Parses a status word and its closing quote.
fn parse_status_exec(s: &str, i: usize) -> (r: Option<(OrderStatus, usize)>)
    requires
        i <= s@.len(),
    ensures
        match r {
            Some(p) => (parse_string_body(s@, i as int) matches Some(q) && status_of_word(q.0)
                == Some(p.0) && q.1 == p.1 as int && i <= p.1 <= s@.len()),
            None => parse_string_body(s@, i as int) is None || (parse_string_body(
                s@,
                i as int,
            ) matches Some(q) && status_of_word(q.0) is None),
        },
{
    match parse_string_exec(s, i) {
        None => None,
        Some(p) => {
            if p.0 == String::from_str("Active") {
                Some((OrderStatus::Active, p.1))
            } else if p.0 == String::from_str("Locked") {
                Some((OrderStatus::Locked, p.1))
            } else if p.0 == String::from_str("Completed") {
                Some((OrderStatus::Completed, p.1))
            } else if p.0 == String::from_str("Expired") {
                Some((OrderStatus::Expired, p.1))
            } else if p.0 == String::from_str("Cancelled") {
                Some((OrderStatus::Cancelled, p.1))
            } else {
                None
            }
        },
    }
}

/// Decodes the tail of an encoded order onto `head`.
fn decode_order_rest(s: &str, i: usize, head: CrossChainOrder) -> (r: Option<CrossChainOrder>)
    requires
        i <= s@.len(),
    ensures
        match r {
            Some(o) => dec_order_rest(s@, i as int, head@) == Some(o@),
            None => dec_order_rest(s@, i as int, head@) is None,
        },
{
    match expect_lit(s, i, ",\"secret\":") {
        None => None,
        Some(j0) => match parse_secret_exec(s, j0) {
            None => None,
            Some(psec) => match expect_lit(s, psec.1, ",\"status\":\"") {
                None => None,
                Some(j1) => match parse_status_exec(s, j1) {
                    None => None,
                    Some(pst) => match parse_u64_field_exec(s, pst.1, ",\"created_at\":") {
                        None => None,
                        Some(pca) => match parse_u64_field_exec(
                            s,
                            pca.1,
                            ",\"last_slippage_update\":",
                        ) {
                            None => None,
                            Some(plu) => match parse_u64_field_exec(
                                s,
                                plu.1,
                                ",\"fill_attempts\":",
                            ) {
                                None => None,
                                Some(pfa) => match expect_lit(s, pfa.1, "}") {
                                    None => None,
                                    Some(j2) => {
                                        let n = s.unicode_len();
                                        if j2 == n {
                                            Some(
                                                CrossChainOrder {
                                                    secret: psec.0,
                                                    status: pst.0,
                                                    created_at: pca.0,
                                                    last_slippage_update: plu.0,
                                                    fill_attempts: pfa.0,
                                                    ..head
                                                },
                                            )
                                        } else {
                                            None
                                        }
                                    },
                                },
                            },
                        },
                    },
                },
            },
        },
    }
}

/// Decodes the middle of an encoded order onto `head`.
fn decode_order_mid(s: &str, i: usize, head: CrossChainOrder) -> (r: Option<CrossChainOrder>)
    requires
        i <= s@.len(),
    ensures
        match r {
            Some(o) => dec_order_mid(s@, i as int, head@) == Some(o@),
            None => dec_order_mid(s@, i as int, head@) is None,
        },
{
    match parse_u128_field_exec(s, i, ",\"base_price\":") {
        None => None,
        Some(pbp) => match parse_u64_field_exec(s, pbp.1, ",\"current_slippage\":") {
            None => None,
            Some(pcs) => match parse_u64_field_exec(s, pcs.1, ",\"max_slippage_deviation\":") {
                None => None,
                Some(pmd) => match parse_u64_field_exec(s, pmd.1, ",\"target_chain_id\":") {
                    None => None,
                    Some(ptc) => match parse_str_field_exec(s, ptc.1, ",\"hashlock\":\"") {
                        None => None,
                        Some(phl) => match parse_u64_field_exec(s, phl.1, ",\"timelock\":") {
                            None => None,
                            Some(ptl) => decode_order_rest(
                                s,
                                ptl.1,
                                CrossChainOrder {
                                    base_price: pbp.0,
                                    current_slippage: pcs.0,
                                    max_slippage_deviation: pmd.0,
                                    target_chain_id: ptc.0,
                                    hashlock: phl.0,
                                    timelock: ptl.0,
                                    ..head
                                },
                            ),
                        },
                    },
                },
            },
        },
    }
}

/// Decodes a canonical order encoding: the exact inverse of `encode_order`
/// on its range, `None` on anything else.
pub fn decode_order(s: &str) -> (r: Option<CrossChainOrder>)
    ensures
        match r {
            Some(o) => dec_order(s@) == Some(o@),
            None => dec_order(s@) is None,
        },
{
    match parse_u64_field_exec(s, 0, "{\"order_id\":") {
        None => None,
        Some(pid) => match parse_str_field_exec(s, pid.1, ",\"maker\":\"") {
            None => None,
            Some(pmk) => match parse_str_field_exec(s, pmk.1, ",\"token_in\":\"") {
                None => None,
                Some(pti) => match parse_str_field_exec(s, pti.1, ",\"token_out\":\"") {
                    None => None,
                    Some(pto) => match parse_u128_field_exec(s, pto.1, ",\"amount_in\":") {
                        None => None,
                        Some(pai) => decode_order_mid(
                            s,
                            pai.1,
                            CrossChainOrder {
                                order_id: pid.0,
                                maker: pmk.0,
                                token_in: pti.0,
                                token_out: pto.0,
                                amount_in: pai.0,
                                base_price: 0,
                                current_slippage: 0,
                                max_slippage_deviation: 0,
                                target_chain_id: 0,
                                hashlock: String::new(),
                                timelock: 0,
                                secret: None,
                                status: OrderStatus::Active,
                                created_at: 0,
                                last_slippage_update: 0,
                                fill_attempts: 0,
                            },
                        ),
                    },
                },
            },
        },
    }
}

/// Renders the canonical encoding of an order.
pub fn encode_order(o: &CrossChainOrder) -> (s: String)
    ensures
        s@ == enc_order(o@),
{
    let mut out = String::new();
    out.append("{\"order_id\":");
    let d0 = u64_to_dec(o.order_id);
    out.append(d0.as_str());
    out.append(",\"maker\":\"");
    append_escaped(&mut out, o.maker.as_str());
    out.append("\"");
    out.append(",\"token_in\":\"");
    append_escaped(&mut out, o.token_in.as_str());
    out.append("\"");
    out.append(",\"token_out\":\"");
    append_escaped(&mut out, o.token_out.as_str());
    out.append("\"");
    out.append(",\"amount_in\":");
    let d1 = u128_to_dec(o.amount_in);
    out.append(d1.as_str());
    out.append(",\"base_price\":");
    let d2 = u128_to_dec(o.base_price);
    out.append(d2.as_str());
    out.append(",\"current_slippage\":");
    let d3 = u64_to_dec(o.current_slippage);
    out.append(d3.as_str());
    out.append(",\"max_slippage_deviation\":");
    let d4 = u64_to_dec(o.max_slippage_deviation);
    out.append(d4.as_str());
    out.append(",\"target_chain_id\":");
    let d5 = u64_to_dec(o.target_chain_id);
    out.append(d5.as_str());
    out.append(",\"hashlock\":\"");
    append_escaped(&mut out, o.hashlock.as_str());
    out.append("\"");
    out.append(",\"timelock\":");
    let d6 = u64_to_dec(o.timelock);
    out.append(d6.as_str());
    out.append(",\"secret\":");
    match &o.secret {
        Option::Some(sec) => {
            push_char(&mut out, '"');
            append_escaped(&mut out, sec.as_str());
            push_char(&mut out, '"');
        },
        Option::None => {
            out.append("null");
        },
    }
    out.append(",\"status\":\"");
    match o.status {
        OrderStatus::Active => out.append("Active"),
        OrderStatus::Locked => out.append("Locked"),
        OrderStatus::Completed => out.append("Completed"),
        OrderStatus::Expired => out.append("Expired"),
        OrderStatus::Cancelled => out.append("Cancelled"),
    }
    out.append("\"");
    out.append(",\"created_at\":");
    let d7 = u64_to_dec(o.created_at);
    out.append(d7.as_str());
    out.append(",\"last_slippage_update\":");
    let d8 = u64_to_dec(o.last_slippage_update);
    out.append(d8.as_str());
    out.append(",\"fill_attempts\":");
    let d9 = u64_to_dec(o.fill_attempts);
    out.append(d9.as_str());
    out.append("}");
    proof {
        assert(out@ =~= enc_order(o@));
    }
    out
}

} // verus!
