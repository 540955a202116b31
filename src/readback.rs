//! Reading a line of line protocol back: the parse that undoes the
//! rendering of fields and numbers, and the laws that it recovers every
//! value that a decoded measurement put in its line.

use crate::config::Sensor;
use crate::decimal::{decimal_text, digit_char, fixed_digits, padded_text, pow10, round_half_even};
use crate::influxdb::{
    entry_text, fields_spec, lemma_fields_sorted, lemma_tags_sorted, line_text,
    measurement_name_spec, opt_b64_text, opt_bw, opt_decimal, opt_fixed2, opt_sf, pairs_text,
    push_opt, tags_spec, voltage_text, InfluxDbConfig, WriteRequest,
};
use crate::ordered::{is_sorted_form, keyed_set, lemma_keyed_set_within, sorted_pairs, Pairs};
use crate::payload::Measurement;
use crate::reading::Reading;
use crate::uplink::{
    max_total, rssi_values, snr_values, Binary64, MeasurementMeta, ReceivingGateway,
};
use vstd::prelude::*;

verus! {

/// Index of the first `c` in `t`, or `-1`.
pub open spec fn first_index_of(t: Seq<char>, c: char) -> int
    decreases t.len(),
{
    if t.len() == 0 {
        -1
    } else if t[0] == c {
        0
    } else {
        let i = first_index_of(t.drop_first(), c);
        if i < 0 {
            -1
        } else {
            i + 1
        }
    }
}

/// Index of the last `c` in `t`, or `-1`.
pub open spec fn last_index_of(t: Seq<char>, c: char) -> int
    decreases t.len(),
{
    if t.len() == 0 {
        -1
    } else if t.last() == c {
        t.len() - 1
    } else {
        last_index_of(t.drop_last(), c)
    }
}

/// `t` does not hold `c`.
pub open spec fn lacks(t: Seq<char>, c: char) -> bool {
    forall|i: int| 0 <= i < t.len() ==> t[i] != c
}

/// `t` holds none of the separators of line protocol: `,`, `=` and space.
pub open spec fn lacks_separators(t: Seq<char>) -> bool {
    lacks(t, ',') && lacks(t, '=') && lacks(t, ' ')
}

/// A `key=value` entry read back: split at its first `=`.
pub open spec fn parse_entry(t: Seq<char>) -> (Seq<char>, Seq<char>) {
    let j = first_index_of(t, '=');
    (t.subrange(0, j), t.subrange(j + 1, t.len() as int))
}

/// A comma-separated list of entries read back.
pub open spec fn split_pairs(t: Seq<char>) -> Seq<(Seq<char>, Seq<char>)>
    decreases t.len(),
{
    let i = last_index_of(t, ',');
    if i < 0 || i >= t.len() {
        seq![parse_entry(t)]
    } else {
        split_pairs(t.subrange(0, i)).push(parse_entry(t.subrange(i + 1, t.len() as int)))
    }
}

/// The fields of a line read back: the entries after its last space.
pub open spec fn fields_of_line(line: Seq<char>) -> Seq<(Seq<char>, Seq<char>)> {
    split_pairs(line.subrange(last_index_of(line, ' ') + 1, line.len() as int))
}

proof fn lemma_first_index_absent(t: Seq<char>, c: char)
    requires
        lacks(t, c),
    ensures
        first_index_of(t, c) == -1,
    decreases t.len(),
{
    if t.len() > 0 {
        lemma_first_index_absent(t.drop_first(), c);
    }
}

proof fn lemma_last_index_absent(t: Seq<char>, c: char)
    requires
        lacks(t, c),
    ensures
        last_index_of(t, c) == -1,
    decreases t.len(),
{
    if t.len() > 0 {
        lemma_last_index_absent(t.drop_last(), c);
    }
}

/// The first `c` of `a + [c] + b` is the one after `a` when `a` holds none.
proof fn lemma_first_index_after(a: Seq<char>, c: char, b: Seq<char>)
    requires
        lacks(a, c),
    ensures
        first_index_of(a + seq![c] + b, c) == a.len(),
    decreases a.len(),
{
    let t = a + seq![c] + b;
    if a.len() > 0 {
        lemma_first_index_after(a.drop_first(), c, b);
        assert(t.drop_first() =~= a.drop_first() + seq![c] + b);
    }
}

/// The last `c` of `a + [c] + b` is the one after `a` when `b` holds none.
proof fn lemma_last_index_before(a: Seq<char>, c: char, b: Seq<char>)
    requires
        lacks(b, c),
    ensures
        last_index_of(a + seq![c] + b, c) == a.len(),
    decreases b.len(),
{
    let t = a + seq![c] + b;
    if b.len() > 0 {
        lemma_last_index_before(a, c, b.drop_last());
        assert(t.drop_last() =~= a + seq![c] + b.drop_last());
    } else {
        assert(t.last() == c);
    }
}

/// An entry whose key holds no `=` reads back as itself.
proof fn lemma_entry_round_trip(p: (Seq<char>, Seq<char>))
    requires
        lacks(p.0, '='),
    ensures
        parse_entry(entry_text(p)) == p,
{
    lemma_first_index_after(p.0, '=', p.1);
    let t = entry_text(p);
    assert(t.subrange(0, p.0.len() as int) =~= p.0);
    assert(t.subrange(p.0.len() as int + 1, t.len() as int) =~= p.1);
}

/// The keys and values of `ps` hold no separator.
pub open spec fn pairs_lack_separators(ps: Seq<(Seq<char>, Seq<char>)>) -> bool {
    forall|i: int| 0 <= i < ps.len() ==> lacks_separators(#[trigger] ps[i].0) && lacks_separators(
        ps[i].1,
    )
}

proof fn lemma_entry_lacks(p: (Seq<char>, Seq<char>), c: char)
    requires
        lacks(p.0, c),
        lacks(p.1, c),
        c != '=',
    ensures
        lacks(entry_text(p), c),
{
    let t = entry_text(p);
    assert forall|i: int| 0 <= i < t.len() implies t[i] != c by {
        if i < p.0.len() {
            assert(t[i] == p.0[i]);
        } else if i > p.0.len() {
            assert(t[i] == p.1[i - p.0.len() - 1]);
        }
    }
}

/// The text of a list with no separator in its keys and values holds no
/// space.
proof fn lemma_pairs_text_lacks_space(ps: Seq<(Seq<char>, Seq<char>)>)
    requires
        pairs_lack_separators(ps),
    ensures
        lacks(pairs_text(ps), ' '),
    decreases ps.len(),
{
    if ps.len() == 1 {
        assert(lacks_separators(ps[0].0) && lacks_separators(ps[0].1));
        lemma_entry_lacks(ps[0], ' ');
    } else if ps.len() > 1 {
        let init = ps.drop_last();
        assert forall|i: int| 0 <= i < init.len() implies lacks_separators(#[trigger] init[i].0)
            && lacks_separators(init[i].1) by {
            assert(init[i] == ps[i]);
        }
        lemma_pairs_text_lacks_space(init);
        lemma_entry_lacks(ps.last(), ' ');
        let t = pairs_text(ps);
        let a = pairs_text(init);
        let e = entry_text(ps.last());
        assert forall|i: int| 0 <= i < t.len() implies t[i] != ' ' by {
            if i < a.len() {
                assert(t[i] == a[i]);
            } else if i > a.len() {
                assert(t[i] == e[i - a.len() - 1]);
            }
        }
    }
}

/// A non-empty list with no separator in its keys and values reads back as
/// itself.
pub proof fn lemma_pairs_round_trip(ps: Seq<(Seq<char>, Seq<char>)>)
    requires
        ps.len() > 0,
        pairs_lack_separators(ps),
    ensures
        split_pairs(pairs_text(ps)) == ps,
    decreases ps.len(),
{
    let t = pairs_text(ps);
    let last = ps.last();
    lemma_entry_lacks(last, ',');
    lemma_entry_round_trip(last);
    if ps.len() == 1 {
        lemma_last_index_absent(t, ',');
        assert(seq![parse_entry(t)] =~= ps);
    } else {
        let init = ps.drop_last();
        assert forall|i: int| 0 <= i < init.len() implies lacks_separators(#[trigger] init[i].0)
            && lacks_separators(init[i].1) by {
            assert(init[i] == ps[i]);
        }
        lemma_pairs_round_trip(init);
        let a = pairs_text(init);
        let e = entry_text(last);
        lemma_last_index_before(a, ',', e);
        assert(t =~= a + seq![','] + e);
        assert(t.subrange(0, a.len() as int) =~= a);
        assert(t.subrange(a.len() as int + 1, t.len() as int) =~= e);
        assert(split_pairs(t) =~= ps);
    }
}

/// The fields of a line read back are the fields it was written with, when
/// no key or value of its fields holds a separator.
pub proof fn lemma_fields_of_line(
    name: Seq<char>,
    tags: Seq<(Seq<char>, Seq<char>)>,
    fields: Seq<(Seq<char>, Seq<char>)>,
)
    requires
        fields.len() > 0,
        pairs_lack_separators(fields),
    ensures
        fields_of_line(line_text(name, tags, fields)) == fields,
{
    let line = line_text(name, tags, fields);
    let head = name + seq![','] + pairs_text(tags);
    let f = pairs_text(fields);
    lemma_pairs_text_lacks_space(fields);
    assert(line =~= head + seq![' '] + f);
    lemma_last_index_before(head, ' ', f);
    assert(line.subrange(head.len() as int + 1, line.len() as int) =~= f);
    lemma_pairs_round_trip(fields);
}

/// The value of a decimal digit character.
pub open spec fn digit_value(c: char) -> nat {
    if c == '1' {
        1
    } else if c == '2' {
        2
    } else if c == '3' {
        3
    } else if c == '4' {
        4
    } else if c == '5' {
        5
    } else if c == '6' {
        6
    } else if c == '7' {
        7
    } else if c == '8' {
        8
    } else if c == '9' {
        9
    } else {
        0
    }
}

/// The value of a string of decimal digits.
pub open spec fn digits_value(t: Seq<char>) -> nat
    decreases t.len(),
{
    if t.len() == 0 {
        0
    } else {
        digits_value(t.drop_last()) * 10 + digit_value(t.last())
    }
}

/// A decimal number read back, as its sign, its digits as one integer, and
/// the number of digits after its point: `-12.05` gives `(true, 1205, 2)`.
pub open spec fn parse_fixed(t: Seq<char>) -> (bool, nat, nat) {
    let negative = t.len() > 0 && t[0] == '-';
    let body = if negative {
        t.drop_first()
    } else {
        t
    };
    let j = first_index_of(body, '.');
    if j < 0 {
        (negative, digits_value(body), 0)
    } else {
        let fraction = body.subrange(j + 1, body.len() as int);
        (
            negative,
            digits_value(body.subrange(0, j)) * pow10(fraction.len()) + digits_value(fraction),
            fraction.len(),
        )
    }
}

/// Every character of `t` is a decimal digit.
pub open spec fn all_digits(t: Seq<char>) -> bool {
    forall|i: int| 0 <= i < t.len() ==> '0' <= #[trigger] t[i] <= '9'
}

proof fn lemma_digits_lack(t: Seq<char>)
    requires
        all_digits(t),
    ensures
        lacks_separators(t),
        lacks(t, '.'),
        lacks(t, '-'),
{
}

proof fn lemma_digit_value(d: nat)
    requires
        d < 10,
    ensures
        digit_value(digit_char(d)) == d,
        '0' <= digit_char(d) <= '9',
{
}

proof fn lemma_decimal_text(n: nat)
    ensures
        decimal_text(n).len() > 0,
        all_digits(decimal_text(n)),
        digits_value(decimal_text(n)) == n,
    decreases n,
{
    lemma_digit_value(n % 10);
    if n < 10 {
        lemma_digit_value(n);
        let t = decimal_text(n);
        assert(t.drop_last() =~= Seq::<char>::empty());
        assert(digits_value(t) == digits_value(t.drop_last()) * 10 + digit_value(t.last()));
    }
    if n >= 10 {
        lemma_decimal_text(n / 10);
        let t = decimal_text(n);
        assert(t.drop_last() =~= decimal_text(n / 10));
        assert(t.last() == digit_char(n % 10));
        vstd::arithmetic::div_mod::lemma_fundamental_div_mod(n as int, 10);
        assert(digits_value(t) == digits_value(decimal_text(n / 10)) * 10 + digit_value(t.last()));
        assert forall|i: int| 0 <= i < t.len() implies '0' <= #[trigger] t[i] <= '9' by {
            if i < t.len() - 1 {
                assert(t[i] == decimal_text(n / 10)[i]);
            }
        }
    }
}

proof fn lemma_padded_text(n: nat, w: nat)
    ensures
        padded_text(n, w).len() == w,
        all_digits(padded_text(n, w)),
        digits_value(padded_text(n, w)) == n % pow10(w),
    decreases w,
{
    if w > 0 {
        let k = (w - 1) as nat;
        lemma_padded_text(n / 10, k);
        lemma_digit_value(n % 10);
        let t = padded_text(n, w);
        assert(t.drop_last() =~= padded_text(n / 10, k));
        assert forall|i: int| 0 <= i < t.len() implies '0' <= #[trigger] t[i] <= '9' by {
            if i < t.len() - 1 {
                assert(t[i] == padded_text(n / 10, k)[i]);
            }
        }
        let p = pow10(k);
        lemma_pow10_pos(k);
        let hi = (n / 10) / p;
        let lo = (n / 10) % p;
        vstd::arithmetic::div_mod::lemma_fundamental_div_mod(n as int, 10);
        vstd::arithmetic::div_mod::lemma_fundamental_div_mod((n / 10) as int, p as int);
        assert(n == hi * (10 * p) + (lo * 10 + n % 10)) by (nonlinear_arith)
            requires
                n == 10 * (n / 10) + n % 10,
                n / 10 == p * hi + lo,
        ;
        assert(lo * 10 + n % 10 < 10 * p) by (nonlinear_arith)
            requires
                lo < p,
                n % 10 < 10,
        ;
        vstd::arithmetic::div_mod::lemma_fundamental_div_mod_converse(
            n as int,
            (10 * p) as int,
            hi as int,
            (lo * 10 + n % 10) as int,
        );
    }
}

proof fn lemma_pow10_pos(p: nat)
    ensures
        pow10(p) > 0,
    decreases p,
{
    if p > 0 {
        lemma_pow10_pos((p - 1) as nat);
    }
}

/// The text of a number with digits after the point reads back as the
/// number, and holds no separator.
pub proof fn lemma_fixed_digits_round_trip(negative: bool, q: nat, places: nat)
    requires
        places > 0,
    ensures
        parse_fixed(fixed_digits(negative, q, places)) == (negative, q, places),
        lacks_separators(fixed_digits(negative, q, places)),
{
    let p = pow10(places);
    lemma_pow10_pos(places);
    let d = decimal_text(q / p);
    let f = padded_text(q % p, places);
    lemma_decimal_text(q / p);
    lemma_padded_text(q % p, places);
    lemma_digits_lack(d);
    lemma_digits_lack(f);
    let body = d + seq!['.'] + f;
    let t = fixed_digits(negative, q, places);
    if negative {
        assert(t =~= seq!['-'] + body);
        assert(t.drop_first() =~= body);
    } else {
        assert(t =~= body);
        assert(body[0] == d[0]);
    }
    lemma_first_index_after(d, '.', f);
    assert(body.subrange(0, d.len() as int) =~= d);
    assert(body.subrange(d.len() as int + 1, body.len() as int) =~= f);
    vstd::arithmetic::div_mod::lemma_fundamental_div_mod(q as int, p as int);
    assert((q / p) * p + q % p == q) by (nonlinear_arith)
        requires
            q == p * (q / p) + q % p,
    ;
    let body_t = if negative { t.drop_first() } else { t };
    assert(body_t =~= body);
    assert(!(t.len() > 0 && t[0] == '-') || negative);
    assert(first_index_of(body, '.') == d.len());
    let read = digits_value(d) * pow10(f.len()) + digits_value(f);
    assert(parse_fixed(t) == (negative, read, f.len()));
    assert(f.len() == places);
    vstd::arithmetic::div_mod::lemma_small_mod((q % p) as nat, p);
    assert(digits_value(d) * pow10(f.len()) + digits_value(f) == (q / p) * p + q % p);
    assert forall|i: int| 0 <= i < t.len() implies t[i] != ',' && t[i] != '=' && t[i] != ' ' by {
        if negative {
            if i > 0 {
                assert(t[i] == body[i - 1]);
            }
        } else {
            assert(t[i] == body[i]);
        }
        if i < t.len() {
            let j = if negative { i - 1 } else { i };
            if 0 <= j < d.len() {
                assert(body[j] == d[j]);
            } else if j > d.len() {
                assert(body[j] == f[j - d.len() - 1]);
            }
        }
    }
}

/// The text of a whole number reads back as the number, and holds no
/// separator.
pub proof fn lemma_decimal_round_trip(n: nat)
    ensures
        parse_fixed(decimal_text(n)) == (false, n, 0nat),
        lacks_separators(decimal_text(n)),
{
    let t = decimal_text(n);
    lemma_decimal_text(n);
    lemma_digits_lack(t);
    lemma_first_index_absent(t, '.');
}

/// Rounding to the nearest integer misses the quotient by at most half.
pub proof fn lemma_round_half_even_error(a: nat, d: nat)
    requires
        d > 0,
    ensures
        2 * (round_half_even(a, d) * d - a) <= d,
        2 * (a - round_half_even(a, d) * d) <= d,
{
    let f = a / d;
    let r = a % d;
    vstd::arithmetic::div_mod::lemma_fundamental_div_mod(a as int, d as int);
    let q = round_half_even(a, d);
    if q == f {
        assert(q * d == a - r) by (nonlinear_arith)
            requires
                a == d * f + r,
                q == f,
        ;
    } else {
        assert(q * d == a - r + d) by (nonlinear_arith)
            requires
                a == d * f + r,
                q == f + 1,
        ;
    }
}

/// A number read back stands for the reading to within half a unit of its
/// last place, with the reading's sign.
pub open spec fn within_half_place(parsed: (bool, nat, nat), r: Reading, places: nat) -> bool {
    &&& parsed.0 == r.is_negative()
    &&& parsed.2 == places
    &&& 2 * (parsed.1 * r.denominator() - r.numerator() * pow10(places)) <= r.denominator()
    &&& 2 * (r.numerator() * pow10(places) - parsed.1 * r.denominator()) <= r.denominator()
}

/// The text of a finite reading reads back as the reading, to within half a
/// unit of its last place, and holds no separator.
pub proof fn lemma_reading_round_trip(r: Reading, places: nat)
    requires
        r.is_finite(),
        places > 0,
    ensures
        within_half_place(parse_fixed(r.fixed_text(places)), r, places),
        lacks_separators(r.fixed_text(places)),
{
    if let Reading::Binary32(bits) = r {
        if crate::reading::b32_scale(bits) < 0 {
            vstd::arithmetic::power2::lemma_pow2_pos((-crate::reading::b32_scale(bits)) as nat);
        }
    }
    let a = r.numerator() * pow10(places);
    let q = round_half_even(a, r.denominator());
    lemma_round_half_even_error(a, r.denominator());
    lemma_fixed_digits_round_trip(r.is_negative(), q, places);
}

/// The text of a voltage reads back as the exact number of millivolts.
pub proof fn lemma_voltage_round_trip(millivolts: u16)
    ensures
        parse_fixed(voltage_text(millivolts)) == (false, millivolts as nat, 3nat),
        lacks_separators(voltage_text(millivolts)),
{
    let x = millivolts as int;
    vstd::arithmetic::div_mod::lemma_div_by_multiple(x, 1000);
    vstd::arithmetic::div_mod::lemma_mod_multiples_basic(x, 1000);
    reveal_with_fuel(pow10, 4);
    assert(round_half_even((x * 1000) as nat, 1000) == x);
    lemma_fixed_digits_round_trip(false, millivolts as nat, 3);
}

/// The value that `max_total` picks is one of its inputs.
proof fn lemma_max_total_member(vs: Seq<Binary64>)
    ensures
        max_total(vs) matches Some(x) ==> vs.contains(x),
    decreases vs.len(),
{
    if vs.len() > 0 {
        lemma_max_total_member(vs.drop_last());
        if let Some(m) = max_total(vs.drop_last()) {
            let i = choose|i: int| 0 <= i < vs.drop_last().len() && vs.drop_last()[i] == m;
            assert(vs[i] == m);
        }
        assert(vs[vs.len() - 1] == vs.last());
    }
}

/// No text that a gateway reported holds a separator.
pub open spec fn gateway_texts_lack_separators(gws: Seq<ReceivingGateway>) -> bool {
    forall|i: int|
        0 <= i < gws.len() ==> lacks_separators(#[trigger] gws[i].rssi.text@) && (gws[i].snr
            matches Some(v) ==> lacks_separators(v.text@))
}

proof fn lemma_snr_values_lack(gws: Seq<ReceivingGateway>)
    requires
        gateway_texts_lack_separators(gws),
    ensures
        forall|i: int|
            0 <= i < snr_values(gws).len() ==> lacks_separators(
                #[trigger] snr_values(gws)[i].text@,
            ),
    decreases gws.len(),
{
    if gws.len() > 0 {
        let init = gws.drop_last();
        assert forall|i: int| 0 <= i < init.len() implies lacks_separators(
            #[trigger] init[i].rssi.text@,
        ) && (init[i].snr matches Some(v) ==> lacks_separators(v.text@)) by {
            assert(init[i] == gws[i]);
        }
        lemma_snr_values_lack(init);
        assert(gws.last() == gws[gws.len() - 1]);
        let rest = snr_values(init);
        let all = snr_values(gws);
        assert forall|i: int| 0 <= i < all.len() implies lacks_separators(
            #[trigger] all[i].text@,
        ) by {
            if i < rest.len() {
                assert(all[i] == rest[i]);
            } else {
                let last = gws[gws.len() - 1];
                assert(lacks_separators(last.rssi.text@));
                if let Some(v) = last.snr {
                    assert(all[i] == v);
                }
            }
        }
    }
}

/// The largest RSSI and SNR hold no separator.
proof fn lemma_max_texts_lack(meta: MeasurementMeta)
    requires
        gateway_texts_lack_separators(meta.receiving_gateways@),
    ensures
        meta.max_rssi_spec() matches Some(x) ==> lacks_separators(x.text@),
        meta.max_snr_spec() matches Some(x) ==> lacks_separators(x.text@),
{
    let gws = meta.receiving_gateways@;
    lemma_max_total_member(rssi_values(gws));
    lemma_max_total_member(snr_values(gws));
    lemma_snr_values_lack(gws);
    if let Some(x) = meta.max_rssi_spec() {
        let i = choose|i: int| 0 <= i < rssi_values(gws).len() && rssi_values(gws)[i] == x;
        assert(rssi_values(gws)[i] == gws[i].rssi);
    }
}

proof fn lemma_keys_lack_separators()
    ensures
        lacks_separators("airtime_ms"@),
        lacks_separators("enclosure_humi"@),
        lacks_separators("enclosure_temp"@),
        lacks_separators("max_rssi"@),
        lacks_separators("max_snr"@),
        lacks_separators("receiving_gateway_count"@),
        lacks_separators("sf"@),
        lacks_separators("voltage"@),
        lacks_separators("water_temp"@),
{
    reveal_strlit("airtime_ms");
    reveal_strlit("enclosure_humi");
    reveal_strlit("enclosure_temp");
    reveal_strlit("max_rssi");
    reveal_strlit("max_snr");
    reveal_strlit("receiving_gateway_count");
    reveal_strlit("sf");
    reveal_strlit("voltage");
    reveal_strlit("water_temp");
}

proof fn lemma_push_lacks(s: Seq<(Seq<char>, Seq<char>)>, key: Seq<char>, value: Option<Seq<char>>)
    requires
        pairs_lack_separators(s),
        lacks_separators(key),
        value matches Some(t) ==> lacks_separators(t),
    ensures
        pairs_lack_separators(push_opt(s, key, value)),
{
    if let Some(t) = value {
        let r = s.push((key, t));
        assert forall|i: int| 0 <= i < r.len() implies lacks_separators(#[trigger] r[i].0)
            && lacks_separators(r[i].1) by {
            if i < s.len() {
                assert(r[i] == s[i]);
            }
        }
    }
}

/// Every key and value of the fields of a finite measurement lacks the
/// separators of line protocol.
proof fn lemma_fields_lack_separators(m: Measurement, meta: MeasurementMeta)
    requires
        m.temperature_water.is_finite(),
        m.temperature_enclosure matches Some(r) ==> r.is_finite(),
        m.humidity_enclosure matches Some(r) ==> r.is_finite(),
        gateway_texts_lack_separators(meta.receiving_gateways@),
    ensures
        pairs_lack_separators(fields_spec(m, meta)),
{
    lemma_keys_lack_separators();
    lemma_max_texts_lack(meta);
    lemma_decimal_round_trip(meta.airtime_ms as nat);
    lemma_decimal_round_trip(meta.receiving_gateways@.len());
    lemma_voltage_round_trip(m.battery_millivolts);
    lemma_reading_round_trip(m.temperature_water, 2);
    if let Some(r) = m.humidity_enclosure {
        lemma_reading_round_trip(r, 2);
    }
    if let Some(r) = m.temperature_enclosure {
        lemma_reading_round_trip(r, 2);
    }
    if let Some(sf) = meta.spreading_factor {
        lemma_decimal_round_trip(sf as nat);
    }
    let s0: Seq<(Seq<char>, Seq<char>)> = seq![];
    let s1 = push_opt(s0, "airtime_ms"@, Some(decimal_text(meta.airtime_ms as nat)));
    lemma_push_lacks(s0, "airtime_ms"@, Some(decimal_text(meta.airtime_ms as nat)));
    assert(s1 =~= seq![("airtime_ms"@, decimal_text(meta.airtime_ms as nat))]);
    let s2 = push_opt(s1, "enclosure_humi"@, opt_fixed2(m.humidity_enclosure));
    lemma_push_lacks(s1, "enclosure_humi"@, opt_fixed2(m.humidity_enclosure));
    let s3 = push_opt(s2, "enclosure_temp"@, opt_fixed2(m.temperature_enclosure));
    lemma_push_lacks(s2, "enclosure_temp"@, opt_fixed2(m.temperature_enclosure));
    let s4 = push_opt(s3, "max_rssi"@, opt_b64_text(meta.max_rssi_spec()));
    lemma_push_lacks(s3, "max_rssi"@, opt_b64_text(meta.max_rssi_spec()));
    let s5 = push_opt(s4, "max_snr"@, opt_b64_text(meta.max_snr_spec()));
    lemma_push_lacks(s4, "max_snr"@, opt_b64_text(meta.max_snr_spec()));
    let count = Some(decimal_text(meta.receiving_gateways@.len()));
    let s6 = push_opt(s5, "receiving_gateway_count"@, count);
    lemma_push_lacks(s5, "receiving_gateway_count"@, count);
    let s7 = push_opt(s6, "sf"@, opt_decimal(opt_sf(meta)));
    lemma_push_lacks(s6, "sf"@, opt_decimal(opt_sf(meta)));
    let s8 = push_opt(s7, "voltage"@, Some(voltage_text(m.battery_millivolts)));
    lemma_push_lacks(s7, "voltage"@, Some(voltage_text(m.battery_millivolts)));
    let s9 = push_opt(s8, "water_temp"@, Some(m.temperature_water.fixed_text(2)));
    lemma_push_lacks(s8, "water_temp"@, Some(m.temperature_water.fixed_text(2)));
    assert(s9 == fields_spec(m, meta));
}

/// Writing a measurement and its uplink as a line of line protocol and
/// reading the line back gives every field back, in order; its numbers read
/// back as the measurement's values: the water and enclosure temperatures
/// and the humidity to within half a unit of their second decimal, the
/// voltage as the exact millivolts, the airtime, gateway count and spreading
/// factor exactly. Readings must be finite (NaN and infinities have no
/// number to give back), and the gateways' own texts must hold no
/// separator.
pub proof fn lemma_line_round_trip(
    name: Seq<char>,
    dev_eui: Seq<char>,
    sensor: Sensor,
    meta: MeasurementMeta,
    m: Measurement,
)
    requires
        m.temperature_water.is_finite(),
        m.temperature_enclosure matches Some(r) ==> r.is_finite(),
        m.humidity_enclosure matches Some(r) ==> r.is_finite(),
        gateway_texts_lack_separators(meta.receiving_gateways@),
    ensures
        ({
            let fields = fields_of_line(
                line_text(name, tags_spec(dev_eui, sensor, meta), fields_spec(m, meta)),
            );
            let n = fields.len();
            let humi = if m.humidity_enclosure is Some { 1int } else { 0int };
            let temp = if m.temperature_enclosure is Some { 1int } else { 0int };
            let rssi = if meta.receiving_gateways@.len() > 0 { 1int } else { 0int };
            let snr = if meta.max_snr_spec() is Some { 1int } else { 0int };
            &&& fields == fields_spec(m, meta)
            &&& fields[0].0 == "airtime_ms"@
            &&& parse_fixed(fields[0].1) == (false, meta.airtime_ms as nat, 0nat)
            &&& fields[n - 1].0 == "water_temp"@
            &&& within_half_place(parse_fixed(fields[n - 1].1), m.temperature_water, 2)
            &&& fields[n - 2].0 == "voltage"@
            &&& parse_fixed(fields[n - 2].1) == (false, m.battery_millivolts as nat, 3nat)
            &&& m.humidity_enclosure matches Some(h) ==> fields[1].0 == "enclosure_humi"@
                && within_half_place(parse_fixed(fields[1].1), h, 2)
            &&& m.temperature_enclosure matches Some(t) ==> fields[1 + humi].0 == "enclosure_temp"@
                && within_half_place(parse_fixed(fields[1 + humi].1), t, 2)
            &&& fields[1 + humi + temp + rssi + snr].0 == "receiving_gateway_count"@
            &&& parse_fixed(fields[1 + humi + temp + rssi + snr].1) == (
                false,
                meta.receiving_gateways@.len(),
                0nat,
            )
            &&& meta.spreading_factor matches Some(sf) ==> fields[n - 3].0 == "sf"@ && parse_fixed(
                fields[n - 3].1,
            ) == (false, sf as nat, 0nat)
        }),
{
    lemma_fields_lack_separators(m, meta);
    let fs = fields_spec(m, meta);
    lemma_fields_of_line(name, tags_spec(dev_eui, sensor, meta), fs);
    lemma_decimal_round_trip(meta.airtime_ms as nat);
    lemma_decimal_round_trip(meta.receiving_gateways@.len());
    lemma_voltage_round_trip(m.battery_millivolts);
    lemma_reading_round_trip(m.temperature_water, 2);
    if let Some(r) = m.humidity_enclosure {
        lemma_reading_round_trip(r, 2);
    }
    if let Some(r) = m.temperature_enclosure {
        lemma_reading_round_trip(r, 2);
    }
    if let Some(sf) = meta.spreading_factor {
        lemma_decimal_round_trip(sf as nat);
    }
    if meta.receiving_gateways@.len() > 0 {
        assert(rssi_values(meta.receiving_gateways@).len() > 0);
        assert(meta.max_rssi_spec() is Some);
    } else {
        assert(rssi_values(meta.receiving_gateways@) =~= Seq::<Binary64>::empty());
    }
}

/// The measurement name of a line read back: the text before its first
/// comma.
pub open spec fn name_of_line(line: Seq<char>) -> Seq<char> {
    line.subrange(0, first_index_of(line, ','))
}

/// The tags of a line read back: the entries between its first comma and
/// its last space.
pub open spec fn tags_of_line(line: Seq<char>) -> Seq<(Seq<char>, Seq<char>)> {
    split_pairs(line.subrange(first_index_of(line, ',') + 1, last_index_of(line, ' ')))
}

/// The name and the tags of a line read back are those it was written
/// with, when the name holds no comma and no key or value holds a
/// separator.
pub proof fn lemma_head_of_line(
    name: Seq<char>,
    tags: Seq<(Seq<char>, Seq<char>)>,
    fields: Seq<(Seq<char>, Seq<char>)>,
)
    requires
        lacks(name, ','),
        tags.len() > 0,
        pairs_lack_separators(tags),
        pairs_lack_separators(fields),
    ensures
        name_of_line(line_text(name, tags, fields)) == name,
        tags_of_line(line_text(name, tags, fields)) == tags,
{
    let line = line_text(name, tags, fields);
    let t = pairs_text(tags);
    let f = pairs_text(fields);
    let head = name + seq![','] + t;
    lemma_pairs_text_lacks_space(fields);
    assert(line =~= head + seq![' '] + f);
    assert(line =~= name + seq![','] + (t + seq![' '] + f));
    lemma_first_index_after(name, ',', t + seq![' '] + f);
    lemma_last_index_before(head, ' ', f);
    assert(line.subrange(0, name.len() as int) =~= name);
    assert(line.subrange(name.len() as int + 1, head.len() as int) =~= t);
    lemma_pairs_round_trip(tags);
}

proof fn lemma_tags_lack_separators(dev_eui: Seq<char>, sensor: Sensor, meta: MeasurementMeta)
    requires
        lacks_separators(dev_eui),
    ensures
        pairs_lack_separators(tags_spec(dev_eui, sensor, meta)),
{
    reveal_strlit("bw");
    reveal_strlit("dev_eui");
    reveal_strlit("sensor_id");
    reveal_strlit("sensor_type");
    reveal_strlit("sf");
    reveal_strlit("gfroerli");
    reveal_strlit("dragino");
    lemma_decimal_round_trip(sensor.sensor_id as nat);
    if let Some(b) = meta.bandwidth {
        lemma_decimal_round_trip(b as nat);
    }
    if let Some(sf) = meta.spreading_factor {
        lemma_decimal_round_trip(sf as nat);
    }
    let e: Seq<(Seq<char>, Seq<char>)> = seq![];
    let s1 = push_opt(e, "bw"@, opt_decimal(opt_bw(meta)));
    lemma_push_lacks(e, "bw"@, opt_decimal(opt_bw(meta)));
    let s2 = push_opt(s1, "dev_eui"@, Some(dev_eui));
    lemma_push_lacks(s1, "dev_eui"@, Some(dev_eui));
    let v3 = Some(decimal_text(sensor.sensor_id as nat));
    let s3 = push_opt(s2, "sensor_id"@, v3);
    lemma_push_lacks(s2, "sensor_id"@, v3);
    let v4 = Some(sensor.sensor_type.name());
    let s4 = push_opt(s3, "sensor_type"@, v4);
    lemma_push_lacks(s3, "sensor_type"@, v4);
    lemma_push_lacks(s4, "sf"@, opt_decimal(opt_sf(meta)));
    assert(push_opt(s4, "sf"@, opt_decimal(opt_sf(meta))) == tags_spec(dev_eui, sensor, meta));
}

/// The line that `measurement_write` sends reads back as what it was made
/// of: its measurement name, its tags and its fields, each in the order
/// built; the sensor ID, bandwidth and spreading factor tags read back as
/// their exact numbers, and the fields as `lemma_line_round_trip` states.
/// The measurement name must hold no comma and the device EUI and the
/// gateways' texts no separator; readings must be finite.
pub proof fn lemma_written_line_round_trip(
    w: WriteRequest,
    config: InfluxDbConfig,
    dev_eui: Seq<char>,
    sensor: Sensor,
    meta: MeasurementMeta,
    m: Measurement,
)
    requires
        w.is_line_for(config, dev_eui, sensor, meta, m),
        lacks(measurement_name_spec(config), ','),
        lacks_separators(dev_eui),
        m.temperature_water.is_finite(),
        m.temperature_enclosure matches Some(r) ==> r.is_finite(),
        m.humidity_enclosure matches Some(r) ==> r.is_finite(),
        gateway_texts_lack_separators(meta.receiving_gateways@),
    ensures
        w.body@ == line_text(
            measurement_name_spec(config),
            tags_spec(dev_eui, sensor, meta),
            fields_spec(m, meta),
        ),
        name_of_line(w.body@) == measurement_name_spec(config),
        fields_of_line(w.body@) == fields_spec(m, meta),
        ({
            let tags = tags_of_line(w.body@);
            let bw = if meta.bandwidth is Some { 1int } else { 0int };
            &&& tags == tags_spec(dev_eui, sensor, meta)
            &&& tags[bw].1 == dev_eui
            &&& parse_fixed(tags[bw + 1].1) == (false, sensor.sensor_id as nat, 0nat)
            &&& meta.bandwidth matches Some(b) ==> parse_fixed(tags[0].1) == (false, b as nat, 0nat)
            &&& meta.spreading_factor matches Some(sf) ==> parse_fixed(tags[tags.len() - 1].1) == (
                false,
                sf as nat,
                0nat,
            )
        }),
{
    lemma_tags_sorted(dev_eui, sensor, meta);
    lemma_fields_sorted(m, meta);
    lemma_tags_lack_separators(dev_eui, sensor, meta);
    lemma_fields_lack_separators(m, meta);
    let name = measurement_name_spec(config);
    let tags = tags_spec(dev_eui, sensor, meta);
    let fields = fields_spec(m, meta);
    lemma_head_of_line(name, tags, fields);
    lemma_fields_of_line(name, tags, fields);
    lemma_decimal_round_trip(sensor.sensor_id as nat);
    if let Some(b) = meta.bandwidth {
        lemma_decimal_round_trip(b as nat);
    }
    if let Some(sf) = meta.spreading_factor {
        lemma_decimal_round_trip(sf as nat);
    }
}

/// The sorted form of a list whose keys and values hold no separator holds
/// none either, and is not empty when the list is not.
proof fn lemma_sorted_form_lacks(t: Pairs, ps: Pairs)
    requires
        is_sorted_form(t, ps),
        pairs_lack_separators(ps),
    ensures
        pairs_lack_separators(t),
        ps.len() > 0 ==> t.len() > 0,
{
    lemma_keyed_set_within(ps);
    assert forall|i: int| 0 <= i < t.len() implies lacks_separators(#[trigger] t[i].0)
        && lacks_separators(t[i].1) by {
        assert(t.to_set().contains(t[i]));
        let k = choose|k: int| 0 <= k < ps.len() && ps[k] == t[i];
    }
    if ps.len() > 0 && t.len() == 0 {
        assert(t.to_set().contains(ps.last()));
    }
}

/// A line that `prepare_write` writes reads back as what it was given: the
/// measurement name, and as tags and as fields exactly the key/value pairs
/// that the lists set (a later pair replacing an earlier one with the same
/// key), each key once and in increasing order. The lists must not be
/// empty, the name must hold no comma, and no key or value a separator.
pub proof fn lemma_prepared_line_round_trip(name: Seq<char>, tags: Pairs, fields: Pairs)
    requires
        is_sorted_form(sorted_pairs(tags), tags),
        is_sorted_form(sorted_pairs(fields), fields),
        tags.len() > 0,
        fields.len() > 0,
        lacks(name, ','),
        pairs_lack_separators(tags),
        pairs_lack_separators(fields),
    ensures
        ({
            let line = line_text(name, sorted_pairs(tags), sorted_pairs(fields));
            &&& name_of_line(line) == name
            &&& tags_of_line(line) == sorted_pairs(tags)
            &&& fields_of_line(line) == sorted_pairs(fields)
            &&& tags_of_line(line).to_set() == keyed_set(tags)
            &&& fields_of_line(line).to_set() == keyed_set(fields)
        }),
{
    let st = sorted_pairs(tags);
    let sf = sorted_pairs(fields);
    lemma_sorted_form_lacks(st, tags);
    lemma_sorted_form_lacks(sf, fields);
    lemma_head_of_line(name, st, sf);
    lemma_fields_of_line(name, st, sf);
}

} // verus!
